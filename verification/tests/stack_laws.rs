//! Concrete instances of the stack-shuffling laws, run on the interpreter.

use stackjit::interp::interpret;
use stackjit::oracle::results_agree;
use stackjit::parser::parse_program;

#[test]
fn dup_then_op_combines_a_value_with_itself() {
    let prog = parse_program(b"dup *").unwrap();
    let mut stack: Vec<i64> = vec![9];
    assert!(interpret(&prog, &mut stack));
    assert_eq!(stack, vec![81]);
}

#[test]
fn swap_twice_is_the_identity() {
    let prog = parse_program(b"swap swap").unwrap();
    let mut stack: Vec<i64> = vec![4, 1, 2];
    assert!(interpret(&prog, &mut stack));
    assert_eq!(stack, vec![4, 1, 2]);
}

#[test]
fn swap_exchanges_the_top_two() {
    let prog = parse_program(b"swap").unwrap();
    let mut stack: Vec<i64> = vec![4, 1, 2];
    assert!(interpret(&prog, &mut stack));
    assert_eq!(stack, vec![4, 2, 1]);
}

#[test]
fn over_swap_discard_recovers_the_second() {
    let prog = parse_program(b"over swap").unwrap();
    let mut stack: Vec<i64> = vec![8, 9];
    assert!(interpret(&prog, &mut stack));
    // discard the new top: the original second value sits on top
    assert_eq!(stack.pop(), Some(9));
    assert_eq!(stack.pop(), Some(8));
    assert_eq!(stack.pop(), Some(8));
}

#[test]
fn zero_count_loop_only_consumes_its_count() {
    let prog = parse_program(b"0 times dup dup dup end").unwrap();
    let mut stack: Vec<i64> = vec![3, 1];
    assert!(interpret(&prog, &mut stack));
    assert_eq!(stack, vec![3, 1]);
}

#[test]
fn shuffles_underflow_on_short_stacks() {
    let swap = parse_program(b"swap").unwrap();
    let mut one: Vec<i64> = vec![5];
    assert!(!interpret(&swap, &mut one));
    let dup = parse_program(b"dup").unwrap();
    let mut empty: Vec<i64> = Vec::new();
    assert!(!interpret(&dup, &mut empty));
}

#[test]
fn oracle_reports_agreement_and_disagreement() {
    assert!(results_agree(7, 7));
    assert!(!results_agree(7, 8));
    assert!(results_agree(-1, -1));
}
