//! The AArch64 code generator: lowers a program into a flat sequence of
//! 32-bit instruction words, pinned word for word by `code_of`.
//!
//! Calling convention of the generated code: the caller passes the top of a
//! private data-stack region in x0; the prologue seats it in x9, which the
//! body then uses as the stack pointer (push = decrement x9 and store, pop =
//! load and increment x9, always in 8-byte slots). The final value is popped
//! into x0 and returned. Registers x0..x2 are scratch, x10 holds a loop's
//! counter and x11 the constant one used to decrement it.

use vstd::prelude::*;

use crate::ast::{Expr, Op, expr_size, lemma_prog_size_index, prog_size};

verus! {

/// `ret`.
pub open spec fn ret_code() -> u32 {
    0xd65f03c0
}

/// `mov x9, x0`: the one-word prologue that seats the caller-supplied stack
/// pointer in x9.
pub open spec fn prologue_code() -> u32 {
    0xaa0003e9
}

/// `add x9, x9, #8`: discard the top stack slot.
pub open spec fn inc_sp_code() -> u32 {
    0x91002129
}

/// `sub x9, x9, #8`: make room for one stack slot.
pub open spec fn dec_sp_code() -> u32 {
    0xd1002129
}

/// `mov x<register>, #value`: load a 16-bit immediate.
pub open spec fn mov_imm_code(register: u8, value: u16) -> u32 {
    0xd2800000u32 | ((value as u32) << 5) | (register as u32)
}

/// `add x<rd>, x<rn>, x<rm>`.
pub open spec fn add_code(rd: u8, rn: u8, rm: u8) -> u32 {
    0x8b000000u32 | ((rm as u32) << 16) | ((rn as u32) << 5) | (rd as u32)
}

/// `mul x<rd>, x<rn>, x<rm>`.
pub open spec fn mul_code(rd: u8, rn: u8, rm: u8) -> u32 {
    0x9b007c00u32 | ((rm as u32) << 16) | ((rn as u32) << 5) | (rd as u32)
}

/// `sub x<rd>, x<rn>, x<rm>`.
pub open spec fn sub_code(rd: u8, rn: u8, rm: u8) -> u32 {
    0xcb000000u32 | ((rm as u32) << 16) | ((rn as u32) << 5) | (rd as u32)
}

/// `ldr x<register>, [x9]`: read the top stack slot.
pub open spec fn ldr_code(register: u8) -> u32 {
    0xf9400120u32 | (register as u32)
}

/// `str x<register>, [x9]`: write the top stack slot.
pub open spec fn str_code(register: u8) -> u32 {
    0xf9000120u32 | (register as u32)
}

/// `cbnz x10, .-<back>`: branch `back` instruction words backward while the
/// counter register is non-zero. The displacement sits in the word-granularity
/// immediate field at bits 23..5, so a distance is reduced modulo 2^19 before
/// it is encoded.
pub open spec fn cbnz_code(back: nat) -> u32 {
    (0xb500000a + 32 * ((0x80000 - (back % 0x80000)) % 0x80000)) as u32
}

/// The words of one stack pop: read the top slot, then shrink the stack.
pub open spec fn pop_code(register: u8) -> Seq<u32> {
    seq![ldr_code(register), inc_sp_code()]
}

/// The words of one stack push: grow the stack, then write the new top slot.
pub open spec fn push_code(register: u8) -> Seq<u32> {
    seq![dec_sp_code(), str_code(register)]
}

/// The computing word of a binary operator, over the registers the operand
/// pops use: the first-popped value sits in x2, the second in x1, and the
/// result goes to x0. Subtraction computes x1 - x2, the interpreter's
/// second-popped minus first-popped.
pub open spec fn op_insn_code(o: Op) -> u32 {
    match o {
        Op::Add => add_code(0, 1, 2),
        Op::Mul => mul_code(0, 1, 2),
        Op::Sub => sub_code(0, 1, 2),
    }
}

/// The words of a whole binary operation: pop both operands, compute, push.
pub open spec fn binop_code(o: Op) -> Seq<u32> {
    pop_code(2) + pop_code(1) + seq![op_insn_code(o)] + push_code(0)
}

/// The words a program lowers to, without prologue or epilogue.
pub open spec fn code_of(p: Seq<Expr>) -> Seq<u32>
    decreases prog_size(p), 2int, p.len(),
{
    if p.len() == 0 {
        Seq::<u32>::empty()
    } else {
        expr_code(p.first()) + code_of(p.drop_first())
    }
}

/// The words one node lowers to. A loop pops its count into x10, then its
/// one-iteration template is: decrement x10 by the constant one in x11, run
/// the body, and branch back to the decrement while x10 is non-zero — so the
/// branch reaches back over the body and the two counter words.
pub open spec fn expr_code(e: Expr) -> Seq<u32>
    decreases expr_size(e), 1int, 0int,
{
    match e {
        Expr::Number(x) => seq![mov_imm_code(0, x)] + push_code(0),
        Expr::Op(o) => binop_code(o),
        Expr::Dup => pop_code(0) + push_code(0) + push_code(0),
        Expr::Swap => pop_code(0) + pop_code(1) + push_code(0) + push_code(1),
        Expr::Over => pop_code(0) + pop_code(1) + push_code(1) + push_code(0) + push_code(1),
        Expr::Loop(body) => pop_code(10) + seq![mov_imm_code(11, 1), sub_code(10, 10, 11)]
            + code_of(body@) + seq![cbnz_code(code_of(body@).len() + 2)],
    }
}

/// The complete native instruction stream for a program: prologue, body, then
/// the epilogue that pops the sole remaining value into x0 and returns.
pub open spec fn full_code_of(p: Seq<Expr>) -> Seq<u32> {
    seq![prologue_code()] + code_of(p) + pop_code(0) + seq![ret_code()]
}

/// Lowering one node after a prefix appends that node's words.
pub proof fn lemma_code_of_snoc(s: Seq<Expr>, e: Expr)
    ensures
        code_of(s.push(e)) == code_of(s) + expr_code(e),
    decreases s.len(),
{
    if s.len() == 0 {
        assert(s.push(e).first() == e);
        assert(s.push(e).drop_first() =~= Seq::<Expr>::empty());
        assert(code_of(s.push(e).drop_first()) =~= Seq::<u32>::empty());
        assert(code_of(s.push(e)) =~= code_of(s) + expr_code(e));
    } else {
        assert(s.push(e).first() == s.first());
        assert(s.push(e).drop_first() =~= s.drop_first().push(e));
        lemma_code_of_snoc(s.drop_first(), e);
        assert(code_of(s.push(e)) =~= code_of(s) + expr_code(e));
    }
}

/// Returns the `ret` word.
pub fn ret() -> (r: u32)
    ensures
        r == ret_code(),
{
    0xd65f03c0
}

/// Encodes `mov x<register>, #value`.
pub fn mov_immediate(register: u8, value: u16) -> (r: u32)
    requires
        register < 32,
    ensures
        r == mov_imm_code(register, value),
{
    let base: u32 = 0xd2800000;
    base | ((value as u32) << 5) | (register as u32)
}

/// Encodes `add x<rd>, x<rn>, x<rm>`.
pub fn add_reg_reg_reg(rd: u8, rn: u8, rm: u8) -> (r: u32)
    ensures
        r == add_code(rd, rn, rm),
{
    let base: u32 = 0x8b000000;
    base | ((rm as u32) << 16) | ((rn as u32) << 5) | (rd as u32)
}

/// Encodes `mul x<rd>, x<rn>, x<rm>`.
pub fn mul_reg_reg_reg(rd: u8, rn: u8, rm: u8) -> (r: u32)
    ensures
        r == mul_code(rd, rn, rm),
{
    let base: u32 = 0x9b007c00;
    base | ((rm as u32) << 16) | ((rn as u32) << 5) | (rd as u32)
}

/// Encodes `sub x<rd>, x<rn>, x<rm>`.
pub fn sub_reg_reg_reg(rd: u8, rn: u8, rm: u8) -> (r: u32)
    ensures
        r == sub_code(rd, rn, rm),
{
    let base: u32 = 0xcb000000;
    base | ((rm as u32) << 16) | ((rn as u32) << 5) | (rd as u32)
}

/// Emits the words that push a literal: load it into x0, then push x0.
pub fn push_literal(value: u16) -> (r: Vec<u32>)
    ensures
        r@ == seq![mov_imm_code(0, value)] + push_code(0),
{
    let mut instructions: Vec<u32> = Vec::new();
    instructions.push(mov_immediate(0, value));
    let mut rest = push_x0();
    instructions.append(&mut rest);
    proof {
        assert(instructions@ =~= seq![mov_imm_code(0, value)] + push_code(0));
    }
    instructions
}

/// Emits the words that pop the top of the stack into a register.
pub fn pop_into_reg(register: u8) -> (r: Vec<u32>)
    ensures
        r@ == pop_code(register),
{
    let ldr: u32 = 0xf9400120u32 | (register as u32);
    let mut instructions: Vec<u32> = Vec::new();
    instructions.push(ldr);
    instructions.push(0x91002129);
    proof {
        assert(instructions@ =~= pop_code(register));
    }
    instructions
}

/// Emits the words that push a register onto the stack.
pub fn push_reg(register: u8) -> (r: Vec<u32>)
    ensures
        r@ == push_code(register),
{
    let mut instructions: Vec<u32> = Vec::new();
    instructions.push(0xd1002129);
    instructions.push(0xf9000120u32 | (register as u32));
    proof {
        assert(instructions@ =~= push_code(register));
    }
    instructions
}

/// Emits the words that push x0.
pub fn push_x0() -> (r: Vec<u32>)
    ensures
        r@ == push_code(0),
{
    push_reg(0)
}

/// Encodes the backward branch `cbnz x10, .+by`, where `by` is a byte
/// displacement: negative, word-aligned, and within the reach of the 19-bit
/// word-offset immediate field.
pub fn cbnz(by: i32) -> (r: u32)
    requires
        by % 4 == 0,
        -0x1ffffc <= by <= -4,
    ensures
        r == cbnz_code(((-by) / 4) as nat),
{
    let back: u32 = ((-by) / 4) as u32;
    0xb500000au32 + (0x1000000u32 - 32u32 * back)
}

/// Emits the words of a whole binary operation: pop the operands into x2 and
/// x1, combine them into x0, push x0.
pub fn do_top_two_and_push(o: Op) -> (r: Vec<u32>)
    ensures
        r@ == binop_code(o),
{
    let mut instructions = pop_into_reg(2);
    let mut second = pop_into_reg(1);
    instructions.append(&mut second);
    let insn = match o {
        Op::Add => add_reg_reg_reg(0, 1, 2),
        Op::Mul => mul_reg_reg_reg(0, 1, 2),
        Op::Sub => sub_reg_reg_reg(0, 1, 2),
    };
    instructions.push(insn);
    let mut push = push_x0();
    instructions.append(&mut push);
    proof {
        assert(instructions@ =~= binop_code(o));
    }
    instructions
}

/// Appends the lowering of every node of `expression` to `output`, exactly
/// the words `code_of` prescribes.
#[verifier::loop_isolation(false)]
pub fn codegen(expression: &Vec<Expr>, output: &mut Vec<u32>)
    ensures
        final(output)@ == old(output)@ + code_of(expression@),
    decreases prog_size(expression@),
{
    let n = expression.len();
    let mut i: usize = 0;
    proof {
        assert(expression@.subrange(0, 0) =~= Seq::<Expr>::empty());
        assert(output@ =~= output@ + code_of(expression@.subrange(0, 0)));
    }
    while i < n
        invariant
            i <= n,
            output@ == old(output)@ + code_of(expression@.subrange(0, i as int)),
        decreases n - i,
    {
        let ghost prefix = expression@.subrange(0, i as int);
        proof {
            assert(expression@.subrange(0, i as int + 1) =~= prefix.push(expression@[i as int]));
            lemma_code_of_snoc(prefix, expression@[i as int]);
        }
        let ghost before = output@;
        match &expression[i] {
            Expr::Number(x) => {
                let mut words = push_literal(*x);
                output.append(&mut words);
            },
            Expr::Op(o) => {
                let mut words = do_top_two_and_push(*o);
                output.append(&mut words);
            },
            Expr::Dup => {
                let mut words = pop_into_reg(0);
                output.append(&mut words);
                let mut words = push_x0();
                output.append(&mut words);
                let mut words = push_x0();
                output.append(&mut words);
                proof {
                    assert(output@ =~= before + expr_code(expression@[i as int]));
                }
            },
            Expr::Swap => {
                let mut words = pop_into_reg(0);
                output.append(&mut words);
                let mut words = pop_into_reg(1);
                output.append(&mut words);
                let mut words = push_reg(0);
                output.append(&mut words);
                let mut words = push_reg(1);
                output.append(&mut words);
                proof {
                    assert(output@ =~= before + expr_code(expression@[i as int]));
                }
            },
            Expr::Over => {
                let mut words = pop_into_reg(0);
                output.append(&mut words);
                let mut words = pop_into_reg(1);
                output.append(&mut words);
                let mut words = push_reg(1);
                output.append(&mut words);
                let mut words = push_reg(0);
                output.append(&mut words);
                let mut words = push_reg(1);
                output.append(&mut words);
                proof {
                    assert(output@ =~= before + expr_code(expression@[i as int]));
                }
            },
            Expr::Loop(body) => {
                proof {
                    lemma_prog_size_index(expression@, i as int);
                }
                let mut words = pop_into_reg(10);
                output.append(&mut words);
                let loop_start_offset = output.len();
                output.push(mov_immediate(11, 1));
                output.push(sub_reg_reg_reg(10, 10, 11));
                codegen(body, output);
                let loop_end_offset = output.len();
                let back = loop_end_offset - loop_start_offset;
                // the immediate field holds the distance only modulo 2^19
                // words; a multiple of 2^19 leaves it empty
                let m = back % 0x80000;
                let jump = if m == 0 {
                    0xb500000au32
                } else {
                    cbnz(-((4 * m) as i32))
                };
                proof {
                    assert(jump == cbnz_code(back as nat));
                }
                output.push(jump);
                proof {
                    assert(output@ =~= before + expr_code(expression@[i as int]));
                }
            },
        }
        proof {
            assert(output@ =~= old(output)@ + code_of(expression@.subrange(0, i as int + 1)));
        }
        i = i + 1;
    }
    proof {
        assert(expression@.subrange(0, n as int) =~= expression@);
    }
}

/// Lowers a whole program into its complete native instruction stream: the
/// prologue that seats the caller-supplied stack pointer, the body, then the
/// epilogue that pops the result into x0 and returns.
pub fn generate(program: &Vec<Expr>) -> (r: Vec<u32>)
    ensures
        r@ == full_code_of(program@),
{
    let mut instructions: Vec<u32> = Vec::new();
    instructions.push(0xaa0003e9);
    codegen(program, &mut instructions);
    let mut epilogue = pop_into_reg(0);
    instructions.append(&mut epilogue);
    instructions.push(ret());
    proof {
        assert(instructions@ =~= full_code_of(program@));
    }
    instructions
}

} // verus!
