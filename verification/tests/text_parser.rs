use htn::htn_vm::{EndState, Num};
use htn::parser::{Instruction, Operator, ParseValue, Parser};
use htn::tokens::VmValue;

#[test]
fn parse_exit_short_form() {
    let instrs = Parser::parse("exit S").unwrap();
    assert_eq!(instrs, vec![Instruction::Exit(EndState::Success)]);
}

#[test]
fn parse_reads_a_leading_s_of_any_word() {
    // The end-state parser takes a leading `S` before trying the full
    // words, so the rest of `Success` is read again as a variable.
    let instrs = Parser::parse("exit Success ").unwrap();
    assert_eq!(
        instrs,
        vec![
            Instruction::Exit(EndState::Success),
            Instruction::Value(Box::new(ParseValue::Variable("uccess".to_string()))),
        ]
    );
}

#[test]
fn parse_assignment_of_a_constant() {
    let instrs = Parser::parse("x = 5 ").unwrap();
    assert_eq!(
        instrs,
        vec![Instruction::Assign(
            "x".to_string(),
            ParseValue::Literal(VmValue::Number(Num::Int(5)))
        )]
    );
}

#[test]
fn parse_parenthesized_expression() {
    let instrs = Parser::parse("x = (a + b)").unwrap();
    assert_eq!(
        instrs,
        vec![Instruction::Assign(
            "x".to_string(),
            ParseValue::Expression(
                Box::new(ParseValue::Variable("a".to_string())),
                Operator::Add,
                Box::new(ParseValue::Variable("b".to_string())),
            )
        )]
    );
}

#[test]
fn parse_method_call_with_arguments() {
    let instrs = Parser::parse("foo.bar('a', 5)").unwrap();
    assert_eq!(
        instrs,
        vec![Instruction::Value(Box::new(ParseValue::CallMethod(
            "foo".to_string(),
            "bar".to_string(),
            vec![
                ParseValue::Literal(VmValue::String("a".to_string())),
                ParseValue::Literal(VmValue::Number(Num::Int(5))),
            ]
        )))]
    );
}

#[test]
fn parse_if_with_else_block() {
    let instrs = Parser::parse("if True { exit S } else { exit F }").unwrap();
    assert_eq!(
        instrs,
        vec![Instruction::If(
            ParseValue::Literal(VmValue::Bool(true)),
            vec![Instruction::Exit(EndState::Success)],
            Some(vec![Instruction::Exit(EndState::Failure)]),
        )]
    );
}

#[test]
fn parse_skips_comments_between_instructions() {
    let instrs = Parser::parse("# one\n# two\nexit F").unwrap();
    assert_eq!(instrs, vec![Instruction::Exit(EndState::Failure)]);
}

#[test]
fn parse_stops_at_the_first_unparsable_text() {
    let instrs = Parser::parse("x = 1 ???").unwrap();
    assert_eq!(instrs.len(), 1);
}

#[test]
fn parse_int_rejects_an_overflowing_run_of_digits() {
    let p = Parser::new("99999999999 ");
    assert!(p.parse_int(0).is_err());
    let p2 = Parser::new("12 ");
    assert_eq!(p2.parse_int(0).unwrap(), (3, 12));
}

#[test]
fn parse_operator_reads_the_whole_punctuation_run() {
    let p = Parser::new("<= x");
    assert_eq!(p.parse_operator(0).unwrap(), (3, Operator::Lte));
    let p2 = Parser::new("<> x");
    assert!(p2.parse_operator(0).is_err());
}

#[test]
fn parse_identifier_takes_letters_underscores_and_hyphens() {
    let p = Parser::new("my-name_x rest");
    assert_eq!(p.parse_identifier(0).unwrap(), (10, "my-name_x".to_string()));
    let p2 = Parser::new("5x");
    assert!(p2.parse_identifier(0).is_err());
}

#[test]
fn parse_identifier_fails_at_the_end_of_input() {
    // The span search only ends at a non-identifier character, so a
    // run that reaches the end of the input yields nothing.
    let p = Parser::new("abc");
    assert!(p.parse_identifier(0).is_err());
}

#[test]
fn parse_string_reads_between_single_quotes() {
    let p = Parser::new("'hello' rest");
    assert_eq!(p.parse_string(0).unwrap(), (8, "hello".to_string()));
    let p2 = Parser::new("'unterminated");
    assert!(p2.parse_string(0).is_err());
}

#[test]
fn parse_comment_runs_to_the_end_of_the_line() {
    let p = Parser::new("# hi\n  x");
    assert_eq!(p.parse_comment(0).unwrap(), (7, ()));
    let p2 = Parser::new("x # hi");
    assert!(p2.parse_comment(0).is_err());
}

#[test]
fn parse_end_state_accepts_single_letters() {
    let p = Parser::new("F ");
    assert_eq!(p.parse_end_state(0).unwrap(), (2, EndState::Failure));
    let p2 = Parser::new("X");
    assert!(p2.parse_end_state(0).is_err());
}

#[test]
fn get_err_index_skips_leading_whitespace() {
    let p = Parser::new("   x");
    assert_eq!(p.get_err_index(0), 3);
    assert_eq!(p.get_err_index(3), 3);
}
