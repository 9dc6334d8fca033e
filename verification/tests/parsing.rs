//! The parser's token rules, loop nesting, and remainder reporting.

use stackjit::ast::{Expr, Op};
use stackjit::parser::{parse_expression, parse_program};

#[test]
fn single_number() {
    let (prog, rest) = parse_expression(b"42");
    assert_eq!(rest, 2);
    assert_eq!(prog.len(), 1);
    assert!(matches!(prog[0], Expr::Number(42)));
}

#[test]
fn operators_and_keywords() {
    let (prog, rest) = parse_expression(b"1 2 + - * dup swap over");
    assert_eq!(rest, 23);
    assert_eq!(prog.len(), 8);
    assert!(matches!(prog[2], Expr::Op(Op::Add)));
    assert!(matches!(prog[3], Expr::Op(Op::Sub)));
    assert!(matches!(prog[4], Expr::Op(Op::Mul)));
    assert!(matches!(prog[5], Expr::Dup));
    assert!(matches!(prog[6], Expr::Swap));
    assert!(matches!(prog[7], Expr::Over));
}

#[test]
fn loop_collects_its_body() {
    let (prog, rest) = parse_expression(b"3 times 1 + end");
    assert_eq!(rest, 15);
    assert_eq!(prog.len(), 2);
    match &prog[1] {
        Expr::Loop(body) => {
            assert_eq!(body.len(), 2);
            assert!(matches!(body[0], Expr::Number(1)));
            assert!(matches!(body[1], Expr::Op(Op::Add)));
        },
        _ => panic!("expected a loop"),
    }
}

#[test]
fn loops_nest() {
    let (prog, rest) = parse_expression(b"times times end end");
    assert_eq!(rest, 19);
    assert_eq!(prog.len(), 1);
    match &prog[0] {
        Expr::Loop(outer) => {
            assert_eq!(outer.len(), 1);
            assert!(matches!(outer[0], Expr::Loop(_)));
        },
        _ => panic!("expected a loop"),
    }
}

#[test]
fn unclosed_loop_is_given_back_whole() {
    // the whole `times 1`, and the space before it, stay unconsumed
    let (prog, rest) = parse_expression(b"3 times 1");
    assert_eq!(rest, 1);
    assert_eq!(prog.len(), 1);
    assert!(matches!(prog[0], Expr::Number(3)));
}

#[test]
fn stray_end_stops_parsing() {
    let (prog, rest) = parse_expression(b"3 end");
    assert_eq!(rest, 1);
    assert_eq!(prog.len(), 1);
}

#[test]
fn token_must_be_followed_by_whitespace() {
    let (prog, rest) = parse_expression(b"3 dup4");
    assert_eq!(rest, 5);
    assert_eq!(prog.len(), 2);
    assert!(matches!(prog[1], Expr::Dup));
}

#[test]
fn unknown_token_backs_up_over_the_separator() {
    let (prog, rest) = parse_expression(b"3 4 x");
    assert_eq!(rest, 3);
    assert_eq!(prog.len(), 2);
}

#[test]
fn number_at_the_16_bit_limit() {
    let prog = parse_program(b"65535").unwrap();
    assert!(matches!(prog[0], Expr::Number(65535)));
}

#[test]
fn number_beyond_16_bits_is_no_token() {
    let err = parse_program(b"65536").unwrap_err();
    assert_eq!(err.at, 0);
}

#[test]
fn leading_zeros_are_accepted() {
    let prog = parse_program(b"000000000007").unwrap();
    assert!(matches!(prog[0], Expr::Number(7)));
}

#[test]
fn empty_input_is_an_error() {
    let err = parse_program(b"").unwrap_err();
    assert_eq!(err.at, 0);
}

#[test]
fn keyword_cut_short_is_no_token() {
    let (prog, rest) = parse_expression(b"timesend");
    assert_eq!(rest, 0);
    assert_eq!(prog.len(), 0);
}

#[test]
fn tabs_and_newlines_part_tokens() {
    let prog = parse_program(b"3\t4\n+").unwrap();
    assert_eq!(prog.len(), 3);
}

#[test]
fn trailing_whitespace_is_left_over() {
    let (prog, rest) = parse_expression(b"3 ");
    assert_eq!(prog.len(), 1);
    assert_eq!(rest, 1);
}
