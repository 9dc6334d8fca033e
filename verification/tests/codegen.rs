//! The generated instruction words, checked bit for bit.

use stackjit::arm64::{
    cbnz, codegen, do_top_two_and_push, generate, mov_immediate, pop_into_reg, push_reg, push_x0,
    ret,
};
use stackjit::ast::Op;
use stackjit::parser::parse_program;

#[test]
fn ret_word() {
    assert_eq!(ret(), 0xd65f03c0);
}

#[test]
fn mov_immediate_words() {
    assert_eq!(mov_immediate(0, 3), 0xd2800060);
    assert_eq!(mov_immediate(11, 1), 0xd280002b);
    assert_eq!(mov_immediate(0, 65535), 0xd29fffe0);
}

#[test]
fn pop_and_push_words() {
    assert_eq!(pop_into_reg(0), vec![0xf9400120, 0x91002129]);
    assert_eq!(pop_into_reg(10), vec![0xf940012a, 0x91002129]);
    assert_eq!(push_reg(1), vec![0xd1002129, 0xf9000121]);
    assert_eq!(push_x0(), vec![0xd1002129, 0xf9000120]);
}

#[test]
fn binary_op_templates() {
    assert_eq!(
        do_top_two_and_push(Op::Add),
        vec![0xf9400122, 0x91002129, 0xf9400121, 0x91002129, 0x8b020020, 0xd1002129, 0xf9000120],
    );
    let sub = do_top_two_and_push(Op::Sub);
    assert_eq!(sub[4], 0xcb020020);
    let mul = do_top_two_and_push(Op::Mul);
    assert_eq!(mul[4], 0x9b027c20);
}

#[test]
fn backward_branch_word() {
    // two words back: over an empty body and the counter decrement
    assert_eq!(cbnz(-8), 0xb5ffffca);
    assert_eq!(cbnz(-4), 0xb5ffffea);
}

#[test]
fn whole_program_stream() {
    let prog = parse_program(b"3 4 +").unwrap();
    let words = generate(&prog);
    assert_eq!(
        words,
        vec![
            0xaa0003e9, // mov x9, x0
            0xd2800060, 0xd1002129, 0xf9000120, // push 3
            0xd2800080, 0xd1002129, 0xf9000120, // push 4
            0xf9400122, 0x91002129, // pop x2
            0xf9400121, 0x91002129, // pop x1
            0x8b020020, // add x0, x1, x2
            0xd1002129, 0xf9000120, // push x0
            0xf9400120, 0x91002129, // pop the result into x0
            0xd65f03c0, // ret
        ],
    );
}

#[test]
fn loop_lowering_and_branch_distance() {
    let prog = parse_program(b"2 times end").unwrap();
    let mut words: Vec<u32> = Vec::new();
    codegen(&prog, &mut words);
    assert_eq!(
        words,
        vec![
            0xd2800040, 0xd1002129, 0xf9000120, // push 2
            0xf940012a, 0x91002129, // pop the count into x10
            0xd280002b, // mov x11, #1
            0xcb0b014a, // sub x10, x10, x11
            0xb5ffffca, // cbnz x10, two words back
        ],
    );
}

#[test]
fn loop_branch_reaches_over_its_body() {
    let prog = parse_program(b"1 2 times dup + end").unwrap();
    let mut words: Vec<u32> = Vec::new();
    codegen(&prog, &mut words);
    // body: dup (6 words) and add (7 words), plus the two counter words
    let back_words = 6 + 7 + 2;
    assert_eq!(*words.last().unwrap(), cbnz(-4 * back_words));
}

#[test]
fn shuffle_lowerings() {
    let prog = parse_program(b"swap").unwrap();
    let mut words: Vec<u32> = Vec::new();
    codegen(&prog, &mut words);
    assert_eq!(
        words,
        vec![
            0xf9400120, 0x91002129, // pop x0
            0xf9400121, 0x91002129, // pop x1
            0xd1002129, 0xf9000120, // push x0
            0xd1002129, 0xf9000121, // push x1
        ],
    );
    let prog = parse_program(b"over").unwrap();
    let mut words: Vec<u32> = Vec::new();
    codegen(&prog, &mut words);
    assert_eq!(
        words,
        vec![
            0xf9400120, 0x91002129, // pop x0
            0xf9400121, 0x91002129, // pop x1
            0xd1002129, 0xf9000121, // push x1
            0xd1002129, 0xf9000120, // push x0
            0xd1002129, 0xf9000121, // push x1
        ],
    );
}
