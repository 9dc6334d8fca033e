//! End-to-end scenarios: program text through the parser and interpreter.

use stackjit::interp::{EvalError, evaluate};
use stackjit::parser::parse_program;

#[test]
fn add_two_literals() {
    let prog = parse_program(b"3 4 +").unwrap();
    assert_eq!(evaluate(&prog), Ok(7));
}

#[test]
fn subtract_top_from_second() {
    // the first-popped operand is the subtrahend: 3 - 4
    let prog = parse_program(b"3 4 -").unwrap();
    assert_eq!(evaluate(&prog), Ok(-1));
}

#[test]
fn multiply_two_literals() {
    let prog = parse_program(b"2 3 *").unwrap();
    assert_eq!(evaluate(&prog), Ok(6));
}

#[test]
fn dup_then_add_doubles() {
    let prog = parse_program(b"5 dup +").unwrap();
    assert_eq!(evaluate(&prog), Ok(10));
}

#[test]
fn swap_then_subtract() {
    let prog = parse_program(b"1 2 swap -").unwrap();
    assert_eq!(evaluate(&prog), Ok(1));
}

#[test]
fn counted_loop_adds_three_times() {
    let prog = parse_program(b"2 3 times 1 + end").unwrap();
    assert_eq!(evaluate(&prog), Ok(5));
}

#[test]
fn nested_loops() {
    let prog = parse_program(b"5 2 times 2 times 1 + end end").unwrap();
    assert_eq!(evaluate(&prog), Ok(9));
}

#[test]
fn malformed_input_reports_leftover() {
    // the first `+` parses as an operator; the second is unconsumed
    let err = parse_program(b"3 ++").unwrap_err();
    assert_eq!(err.at, 3);
}

#[test]
fn loop_with_zero_count_leaves_stack() {
    let prog = parse_program(b"5 0 times dup end").unwrap();
    assert_eq!(evaluate(&prog), Ok(5));
}

#[test]
fn loop_with_negative_count_runs_zero_times() {
    let prog = parse_program(b"7 0 1 - times dup end").unwrap();
    assert_eq!(evaluate(&prog), Ok(7));
}

#[test]
fn operator_on_empty_stack_underflows() {
    let prog = parse_program(b"+").unwrap();
    assert_eq!(evaluate(&prog), Err(EvalError::StackUnderflow));
}

#[test]
fn loop_count_pop_on_empty_stack_underflows() {
    let prog = parse_program(b"times 1 + end 2").unwrap();
    assert_eq!(evaluate(&prog), Err(EvalError::StackUnderflow));
}

#[test]
fn two_leftover_values_are_reported() {
    let prog = parse_program(b"1 2").unwrap();
    assert_eq!(evaluate(&prog), Err(EvalError::BadResultCount));
}

#[test]
fn empty_final_stack_is_reported() {
    let prog = parse_program(b"2 times end").unwrap();
    assert_eq!(evaluate(&prog), Err(EvalError::BadResultCount));
}
