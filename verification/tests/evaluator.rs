use rbasic::evaluator::{evaluate, render, trim_end, Cause, Interpreter, Run};
use rbasic::lexer::{tokenize_line, LineNumber, LineOfCode, TokenAndPos};
use rbasic::program::Program;
use rbasic::token::Token;
use rbasic::value::RBasicValue;

fn eval_line(line: &str) -> Result<String, String> {
    let result = tokenize_line(line);
    assert!(result.is_ok());
    let code_line = result.unwrap();
    match evaluate(vec![code_line], Vec::new(), 1000).result {
        Ok(message) => Ok(message),
        Err(e) => Err(e.message()),
    }
}

fn lines(source: &[&str]) -> Vec<LineOfCode> {
    source.iter().map(|line| tokenize_line(line).unwrap()).collect()
}

fn run(source: &[&str], input: &[&str]) -> Run {
    evaluate(lines(source), input.iter().map(|line| line.to_string()).collect(), 10_000)
}

#[test]
fn eval_goto_invalid_target_line_number() {
    let eval_result = eval_line("10 GOTO 5").err();
    assert_eq!(
        eval_result,
        Some("At LineNumber(10), 8 invalid target line for GOTO".to_string())
    );
}

#[test]
fn eval_goto_invalid_line_number() {
    let eval_result = eval_line("10 GOTO A").err();
    assert_eq!(
        eval_result,
        Some("At LineNumber(10), 8 GOTO must be followed by valid line number".to_string())
    );
}

#[test]
fn eval_goto_no_line_number() {
    let eval_result = eval_line("10 GOTO").err();
    assert_eq!(
        eval_result,
        Some("At LineNumber(10), 7 GOTO must be followed by a line number".to_string())
    );
}

#[test]
fn eval_input_no_variable() {
    let eval_result = eval_line("10 INPUT").err();
    assert_eq!(
        eval_result,
        Some("At LineNumber(10), 8 INPUT must be followed by a variable name".to_string())
    );
}

#[test]
fn goto_failure_names_line_and_column() {
    let outcome = run(&["10 REM start", "20 GOTO 15"], &[]);
    let error = outcome.result.unwrap_err();
    assert_eq!(error.line, LineNumber(20));
    assert_eq!(error.column, 8);
    assert!(matches!(error.cause, Cause::GotoTarget));
}

#[test]
fn false_condition_falls_through() {
    let outcome = run(&["10 IF 1 > 2 THEN 999", "20 PRINT \"next\""], &[]);
    assert_eq!(outcome.result, Ok("Completed Successfully".to_string()));
    assert_eq!(outcome.output, vec!["next".to_string()]);
}

#[test]
fn true_condition_jumps() {
    let outcome =
        run(&["10 IF 2 > 1 THEN 30", "20 PRINT \"skipped\"", "30 PRINT \"there\""], &[]);
    assert_eq!(outcome.result, Ok("Completed Successfully".to_string()));
    assert_eq!(outcome.output, vec!["there".to_string()]);
}

#[test]
fn true_condition_with_missing_target_fails() {
    let outcome = run(&["10 IF 2 > 1 THEN 999"], &[]);
    assert_eq!(
        outcome.result.unwrap_err().message(),
        "At LineNumber(10), 3 invalid target line for IF"
    );
}

#[test]
fn if_without_truth_value_fails() {
    let outcome = run(&["10 IF 1 + 2 THEN 10"], &[]);
    assert_eq!(outcome.result.unwrap_err().message(), "At LineNumber(10), 3 invalid syntax for IF.");
}

#[test]
fn let_and_print() {
    let outcome = run(&["10 LET A = 5", "20 LET B = A * 2 + 1", "30 PRINT B"], &[]);
    assert_eq!(outcome.result, Ok("Completed Successfully".to_string()));
    assert_eq!(outcome.output, vec!["11".to_string()]);
}

#[test]
fn factorial_by_goto_and_if() {
    let outcome = run(
        &[
            "10 LET N = 5",
            "20 LET F = 1",
            "30 IF N < 2 THEN 70",
            "40 LET F = F * N",
            "50 LET N = N - 1",
            "60 GOTO 30",
            "70 PRINT F",
        ],
        &[],
    );
    assert_eq!(outcome.result, Ok("Completed Successfully".to_string()));
    assert_eq!(outcome.output, vec!["120".to_string()]);
}

#[test]
fn lines_run_in_ascending_order_whatever_the_order_given() {
    let sorted = run(&["10 PRINT 1", "20 PRINT 2", "30 PRINT 3"], &[]);
    let shuffled = run(&["30 PRINT 3", "10 PRINT 1", "20 PRINT 2"], &[]);
    assert_eq!(sorted.output, vec!["1".to_string(), "2".to_string(), "3".to_string()]);
    assert_eq!(shuffled.output, sorted.output);
    assert_eq!(shuffled.result, sorted.result);
}

#[test]
fn jump_lands_on_the_line_with_the_number() {
    let outcome = run(&["30 PRINT 3", "20 GOTO 30", "25 PRINT 25", "10 PRINT 1"], &[]);
    assert_eq!(outcome.output, vec!["1".to_string(), "3".to_string()]);
}

#[test]
fn later_line_with_the_same_number_stays() {
    let outcome = run(&["10 PRINT 1", "10 PRINT 2"], &[]);
    assert_eq!(outcome.output, vec!["2".to_string()]);
}

#[test]
fn program_index_and_lines() {
    let program = Program::load(lines(&["30 REM c", "10 REM a", "20 REM b"]));
    assert_eq!(program.len(), 3);
    assert_eq!(program.line(0).line_number, LineNumber(10));
    assert_eq!(program.line(1).line_number, LineNumber(20));
    assert_eq!(program.line(2).line_number, LineNumber(30));
    assert_eq!(program.index_of(20), Some(1));
    assert_eq!(program.index_of(25), None);
}

#[test]
fn input_binds_trimmed_text() {
    let outcome = run(&["10 INPUT A", "20 PRINT A + \"!\""], &["  hello \t"]);
    assert_eq!(outcome.result, Ok("Completed Successfully".to_string()));
    assert_eq!(outcome.output, vec!["  hello!".to_string()]);
}

#[test]
fn input_overwrites_a_variable() {
    let outcome = run(&["10 LET A = 1", "20 INPUT A", "30 PRINT A"], &["7"]);
    assert_eq!(outcome.output, vec!["7".to_string()]);
}

#[test]
fn input_text_counts_as_a_number() {
    let outcome = run(&["10 INPUT A", "20 PRINT A + 1"], &["41"]);
    assert_eq!(outcome.output, vec!["42".to_string()]);
}

#[test]
fn input_at_the_end_of_input_fails() {
    let outcome = run(&["10 INPUT A"], &[]);
    assert_eq!(outcome.result.unwrap_err().message(), "At LineNumber(10), 3 INPUT found no line to read");
}

#[test]
fn let_with_undefined_variable_fails() {
    let outcome = run(&["10 LET A = B + 1"], &[]);
    assert_eq!(
        outcome.result.unwrap_err().message(),
        "At LineNumber(10), 3 error in LET expression: Invalid variable reference B in expression"
    );
}

#[test]
fn let_without_equals_fails() {
    let outcome = run(&["10 LET A + 5"], &[]);
    assert_eq!(outcome.result.unwrap_err().message(), "At LineNumber(10), 3 invalid syntax for LET.");
}

#[test]
fn print_without_expression_fails() {
    let outcome = run(&["10 PRINT"], &[]);
    assert_eq!(
        outcome.result.unwrap_err().message(),
        "At LineNumber(10), 3 PRINT must be followed by valid expression"
    );
}

#[test]
fn unknown_statement_fails() {
    let outcome = run(&["10 THEN 5"], &[]);
    assert_eq!(outcome.result.unwrap_err().message(), "At LineNumber(10), 3 invalid syntax");
}

#[test]
fn print_renders_each_type() {
    let outcome = run(&["10 PRINT 0 - 12", "20 PRINT 1 = 1", "30 PRINT \"a b\"", "40 PRINT !(1 = 1)"], &[]);
    assert_eq!(
        outcome.output,
        vec!["-12".to_string(), "true".to_string(), "a b".to_string(), "false".to_string()]
    );
}

#[test]
fn endless_loop_stops_at_the_step_limit() {
    let outcome = evaluate(lines(&["10 PRINT 1", "20 GOTO 10"]), Vec::new(), 5);
    let error = outcome.result.unwrap_err();
    assert!(matches!(error.cause, Cause::StepLimit));
    assert_eq!(error.line, LineNumber(20));
    assert_eq!(outcome.output.len(), 3);
}

#[test]
fn empty_program_completes() {
    let outcome = run(&[], &[]);
    assert_eq!(outcome.result, Ok("Completed Successfully".to_string()));
    assert!(outcome.output.is_empty());
}

#[test]
fn stepping_by_hand() {
    let program = Program::load(lines(&["10 INPUT A", "20 PRINT A", "30 REM done"]));
    let mut state = Interpreter::new();
    assert!(!state.finished(&program));
    assert!(state.needs_input(&program));
    assert_eq!(state.step(&program, Some("x\n".to_string())).unwrap(), None);
    assert!(!state.needs_input(&program));
    assert_eq!(state.step(&program, None).unwrap(), Some("x".to_string()));
    assert_eq!(state.step(&program, None).unwrap(), None);
    assert!(state.finished(&program));
    assert_eq!(state.step(&program, None).unwrap(), None);
    assert_eq!(state.line_index, 3);
}

#[test]
fn values_are_rendered() {
    assert_eq!(render(&RBasicValue::Number(0)), "0");
    assert_eq!(render(&RBasicValue::Number(-2147483648)), "-2147483648");
    assert_eq!(render(&RBasicValue::Number(2147483647)), "2147483647");
    assert_eq!(render(&RBasicValue::Bool(true)), "true");
    assert_eq!(render(&RBasicValue::Bool(false)), "false");
    assert_eq!(render(&RBasicValue::String(" a \"b\" ".to_string())), " a \"b\" ");
}

#[test]
fn input_lines_are_trimmed_at_the_end() {
    assert_eq!(trim_end("abc\n"), "abc");
    assert_eq!(trim_end("abc\r\n"), "abc");
    assert_eq!(trim_end("  a b \t\u{3000} "), "  a b");
    assert_eq!(trim_end(" \n"), "");
    assert_eq!(trim_end(""), "");
    assert_eq!(trim_end("é"), "é");
}

#[test]
fn goto_with_a_negative_number_fails() {
    let line = LineOfCode {
        line_number: LineNumber(4294967295),
        tokens: vec![TokenAndPos(11, Token::Goto), TokenAndPos(16, Token::Number(-1))],
    };
    let outcome = evaluate(vec![line], Vec::new(), 10);
    assert_eq!(
        outcome.result.unwrap_err().message(),
        "At LineNumber(4294967295), 16 invalid target line for GOTO"
    );
}

#[test]
fn column_behind_a_far_offset_does_not_wrap() {
    let line = LineOfCode {
        line_number: LineNumber(1),
        tokens: vec![TokenAndPos(u32::MAX, Token::Input)],
    };
    let error = evaluate(vec![line], Vec::new(), 10).result.unwrap_err();
    assert_eq!(error.column, 4294967300);
    assert!(matches!(error.cause, Cause::InputMissing));
}

#[test]
fn let_failure_carries_the_cause() {
    let outcome = run(&["10 LET A = 1 / 0"], &[]);
    assert_eq!(
        outcome.result.unwrap_err().message(),
        "At LineNumber(10), 3 error in LET expression: Cannot divide by zero."
    );
    let outcome = run(&["10 LET A = (1"], &[]);
    assert_eq!(
        outcome.result.unwrap_err().message(),
        "At LineNumber(10), 3 error in LET expression: Mismatched parenthesis in expression"
    );
}

#[test]
fn failure_keeps_what_was_printed() {
    let outcome = run(&["10 PRINT 1", "20 GOTO 99", "30 PRINT 3"], &[]);
    assert_eq!(outcome.output, vec!["1".to_string()]);
    assert!(outcome.result.is_err());
}

#[test]
fn line_without_statement_does_nothing() {
    let outcome = run(&["10", "20 PRINT 2", ""], &[]);
    assert_eq!(outcome.result, Ok("Completed Successfully".to_string()));
    assert_eq!(outcome.output, vec!["2".to_string()]);
}
