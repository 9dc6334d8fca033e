//! A model of the target machine at the level the code generator reasons
//! about, and the proof that the generated code computes exactly what the
//! interpreter does wherever the model can follow it.
//!
//! Each emitted word is the encoding of one abstract instruction; the model
//! executes those instructions over registers and the software stack region,
//! with the stack pointer counted in 8-byte slots. The runner is
//! straight-line, so agreement is proved outright for every program without
//! loops, and for a loop by tracing its backward branch out into the
//! unrolled iteration sequence the branch semantics prescribe for a
//! positive count. What remains outside the model — the hardware decoding
//! each word back to its instruction, and the branch re-entering the
//! decrement while the counter register is non-zero — is what the oracle
//! comparison checks at run time.

use vstd::prelude::*;

use crate::arm64::{
    add_code, cbnz_code, code_of, dec_sp_code, expr_code, full_code_of, inc_sp_code, ldr_code,
    mov_imm_code, mul_code, prologue_code, ret_code, str_code, sub_code,
};
use crate::ast::{Expr, Op, expr_size, prog_size};
use crate::interp::{op_val, run_expr, run_loop, run_prog, spec_evaluate};

verus! {

/// One abstract instruction of the generated code.
pub enum Inst {
    /// `mov x<r>, #v`.
    MovImm(u8, u16),
    /// `add xd, xn, xm`.
    AddR(u8, u8, u8),
    /// `sub xd, xn, xm`.
    SubR(u8, u8, u8),
    /// `mul xd, xn, xm`.
    MulR(u8, u8, u8),
    /// `ldr x<r>, [x9]`.
    Ldr(u8),
    /// `str x<r>, [x9]`.
    Str(u8),
    /// `add x9, x9, #8`.
    IncSp,
    /// `sub x9, x9, #8`.
    DecSp,
    /// `cbnz x10, .-<back words>`.
    Cbnz(u32),
    /// `mov x9, x0`.
    MovSpArg,
    /// `ret`.
    Ret,
}

/// The word each abstract instruction encodes to.
pub open spec fn encode(inst: Inst) -> u32 {
    match inst {
        Inst::MovImm(r, v) => mov_imm_code(r, v),
        Inst::AddR(rd, rn, rm) => add_code(rd, rn, rm),
        Inst::SubR(rd, rn, rm) => sub_code(rd, rn, rm),
        Inst::MulR(rd, rn, rm) => mul_code(rd, rn, rm),
        Inst::Ldr(r) => ldr_code(r),
        Inst::Str(r) => str_code(r),
        Inst::IncSp => inc_sp_code(),
        Inst::DecSp => dec_sp_code(),
        Inst::Cbnz(back) => cbnz_code(back as nat),
        Inst::MovSpArg => prologue_code(),
        Inst::Ret => ret_code(),
    }
}

/// The computing instruction of a binary operator.
pub open spec fn op_inst(o: Op) -> Inst {
    match o {
        Op::Add => Inst::AddR(0, 1, 2),
        Op::Mul => Inst::MulR(0, 1, 2),
        Op::Sub => Inst::SubR(0, 1, 2),
    }
}

/// The abstract instructions a program lowers to, mirroring `code_of` one
/// instruction per word.
pub open spec fn insts_of(p: Seq<Expr>) -> Seq<Inst>
    decreases prog_size(p), 2int, p.len(),
{
    if p.len() == 0 {
        Seq::<Inst>::empty()
    } else {
        expr_insts(p.first()) + insts_of(p.drop_first())
    }
}

/// The abstract instructions one node lowers to.
pub open spec fn expr_insts(e: Expr) -> Seq<Inst>
    decreases expr_size(e), 1int, 0int,
{
    match e {
        Expr::Number(x) => seq![Inst::MovImm(0, x), Inst::DecSp, Inst::Str(0)],
        Expr::Op(o) => seq![
            Inst::Ldr(2),
            Inst::IncSp,
            Inst::Ldr(1),
            Inst::IncSp,
            op_inst(o),
            Inst::DecSp,
            Inst::Str(0),
        ],
        Expr::Dup => seq![
            Inst::Ldr(0),
            Inst::IncSp,
            Inst::DecSp,
            Inst::Str(0),
            Inst::DecSp,
            Inst::Str(0),
        ],
        Expr::Swap => seq![
            Inst::Ldr(0),
            Inst::IncSp,
            Inst::Ldr(1),
            Inst::IncSp,
            Inst::DecSp,
            Inst::Str(0),
            Inst::DecSp,
            Inst::Str(1),
        ],
        Expr::Over => seq![
            Inst::Ldr(0),
            Inst::IncSp,
            Inst::Ldr(1),
            Inst::IncSp,
            Inst::DecSp,
            Inst::Str(1),
            Inst::DecSp,
            Inst::Str(0),
            Inst::DecSp,
            Inst::Str(1),
        ],
        Expr::Loop(body) => seq![
            Inst::Ldr(10),
            Inst::IncSp,
            Inst::MovImm(11, 1),
            Inst::SubR(10, 10, 11),
        ] + insts_of(body@) + seq![
            Inst::Cbnz((((code_of(body@).len() + 2) % 0x80000) as u32)),
        ],
    }
}

/// The machine as the generated code sees it: the registers, the stack
/// pointer x9 counted in 8-byte slots, and the software stack region as a
/// map from slot index to the 64-bit value stored there.
pub struct MState {
    pub regs: Map<u8, i64>,
    pub sp: int,
    pub mem: Map<int, i64>,
}

/// One instruction's effect. The straight-line runner gives branches, the
/// prologue and `ret` no effect; agreement theorems below never cross one.
pub open spec fn step(inst: Inst, m: MState) -> MState {
    match inst {
        Inst::MovImm(r, v) => MState { regs: m.regs.insert(r, v as i64), sp: m.sp, mem: m.mem },
        Inst::AddR(rd, rn, rm) => MState {
            regs: m.regs.insert(
                rd,
                vstd::wrapping::i64_specs::wrapping_add(m.regs[rn], m.regs[rm]),
            ),
            sp: m.sp,
            mem: m.mem,
        },
        Inst::SubR(rd, rn, rm) => MState {
            regs: m.regs.insert(
                rd,
                vstd::wrapping::i64_specs::wrapping_sub(m.regs[rn], m.regs[rm]),
            ),
            sp: m.sp,
            mem: m.mem,
        },
        Inst::MulR(rd, rn, rm) => MState {
            regs: m.regs.insert(
                rd,
                vstd::wrapping::i64_specs::wrapping_mul(m.regs[rn], m.regs[rm]),
            ),
            sp: m.sp,
            mem: m.mem,
        },
        Inst::Ldr(r) => MState { regs: m.regs.insert(r, m.mem[m.sp]), sp: m.sp, mem: m.mem },
        Inst::Str(r) => MState { regs: m.regs, sp: m.sp, mem: m.mem.insert(m.sp, m.regs[r]) },
        Inst::IncSp => MState { regs: m.regs, sp: m.sp + 1, mem: m.mem },
        Inst::DecSp => MState { regs: m.regs, sp: m.sp - 1, mem: m.mem },
        Inst::Cbnz(_) => m,
        Inst::MovSpArg => m,
        Inst::Ret => m,
    }
}

/// Runs a sequence of instructions in order.
pub open spec fn run_insts(insts: Seq<Inst>, m: MState) -> MState
    decreases insts.len(),
{
    if insts.len() == 0 {
        m
    } else {
        run_insts(insts.drop_first(), step(insts.first(), m))
    }
}

/// A program without loops, at any depth.
pub open spec fn loop_free(p: Seq<Expr>) -> bool {
    forall|k: int| 0 <= k < p.len() ==> !(p[k] is Loop)
}

/// The machine's stack region holds exactly the interpreter's stack: the
/// top of the stack at the slot x9 points to, deeper values at higher
/// slots.
pub open spec fn stack_ok(m: MState, st: Seq<i64>) -> bool {
    forall|a: int|
        m.sp <= a < m.sp + st.len() ==> #[trigger] m.mem[a] == st[st.len() - 1 - (a - m.sp)]
}

/// Running concatenated instructions runs them in order.
pub proof fn lemma_run_insts_app(a: Seq<Inst>, b: Seq<Inst>, m: MState)
    ensures
        run_insts(a + b, m) == run_insts(b, run_insts(a, m)),
    decreases a.len(),
{
    if a.len() == 0 {
        assert(a + b =~= b);
    } else {
        assert((a + b).first() == a.first());
        assert((a + b).drop_first() =~= a.drop_first() + b);
        lemma_run_insts_app(a.drop_first(), b, step(a.first(), m));
    }
}

/// `lemma_expr_template` for a literal.
pub proof fn lemma_template_number(x: u16, m: MState, st: Seq<i64>)
    requires
        stack_ok(m, st),
    ensures
        ({
            let m2 = run_insts(expr_insts(Expr::Number(x)), m);
            stack_ok(m2, st.push(x as i64)) && m2.sp == m.sp - 1 && m2.regs[10] == m.regs[10]
                && m2.regs[11] == m.regs[11]
        }),
{
    reveal_with_fuel(run_insts, 4);
    let is = expr_insts(Expr::Number(x));
    assert(is.drop_first() =~= seq![Inst::DecSp, Inst::Str(0)]);
    assert(is.drop_first().drop_first() =~= seq![Inst::Str(0)]);
    assert(is.drop_first().drop_first().drop_first() =~= Seq::<Inst>::empty());
    let m1 = step(Inst::MovImm(0, x), m);
    let m2 = step(Inst::DecSp, m1);
    let m3 = step(Inst::Str(0), m2);
    assert(run_insts(is, m) == m3);
    assert(m3.mem[m3.sp] == x as i64);
    assert(stack_ok(m3, st.push(x as i64)));
}

/// `lemma_expr_template` for a binary operator.
pub proof fn lemma_template_op(o: Op, m: MState, st: Seq<i64>)
    requires
        stack_ok(m, st),
        st.len() >= 2,
    ensures
        ({
            let m2 = run_insts(expr_insts(Expr::Op(o)), m);
            let st2 = st.drop_last().drop_last().push(op_val(o, st.last(), st[st.len() - 2]));
            stack_ok(m2, st2) && m2.sp == m.sp + 1 && m2.regs[10] == m.regs[10] && m2.regs[11]
                == m.regs[11]
        }),
{
    reveal_with_fuel(run_insts, 8);
    let is = expr_insts(Expr::Op(o));
    assert(is.drop_first() =~= is.subrange(1, 7));
    assert(is.subrange(1, 7).drop_first() =~= is.subrange(2, 7));
    assert(is.subrange(2, 7).drop_first() =~= is.subrange(3, 7));
    assert(is.subrange(3, 7).drop_first() =~= is.subrange(4, 7));
    assert(is.subrange(4, 7).drop_first() =~= is.subrange(5, 7));
    assert(is.subrange(5, 7).drop_first() =~= is.subrange(6, 7));
    assert(is.subrange(6, 7).drop_first() =~= Seq::<Inst>::empty());
    let a = st.last();
    let b = st[st.len() - 2];
    assert(m.mem[m.sp] == a && m.mem[m.sp + 1] == b);
    let m1 = step(Inst::Ldr(2), m);
    let m2 = step(Inst::IncSp, m1);
    let m3 = step(Inst::Ldr(1), m2);
    let m4 = step(Inst::IncSp, m3);
    let m5 = step(op_inst(o), m4);
    let m6 = step(Inst::DecSp, m5);
    let m7 = step(Inst::Str(0), m6);
    assert(run_insts(is, m) == m7);
    assert(m4.regs[2] == a && m4.regs[1] == b);
    assert(m5.regs[0] == op_val(o, a, b)) by {
        match o {
            Op::Add => {
                assert(m5.regs[0] == vstd::wrapping::i64_specs::wrapping_add(b, a));
            },
            Op::Sub => {
                assert(m5.regs[0] == vstd::wrapping::i64_specs::wrapping_sub(b, a));
            },
            Op::Mul => {
                assert(m5.regs[0] == vstd::wrapping::i64_specs::wrapping_mul(b, a));
                assert(b * a == a * b);
            },
        }
    }
    let st2 = st.drop_last().drop_last().push(op_val(o, a, b));
    assert(m7.mem[m7.sp] == op_val(o, a, b));
    assert(stack_ok(m7, st2));
}

/// `lemma_expr_template` for `dup`.
pub proof fn lemma_template_dup(m: MState, st: Seq<i64>)
    requires
        stack_ok(m, st),
        st.len() >= 1,
    ensures
        ({
            let m2 = run_insts(expr_insts(Expr::Dup), m);
            stack_ok(m2, st.push(st.last())) && m2.sp == m.sp - 1 && m2.regs[10] == m.regs[10]
                && m2.regs[11] == m.regs[11]
        }),
{
    reveal_with_fuel(run_insts, 7);
    let is = expr_insts(Expr::Dup);
    assert(is.drop_first() =~= is.subrange(1, 6));
    assert(is.subrange(1, 6).drop_first() =~= is.subrange(2, 6));
    assert(is.subrange(2, 6).drop_first() =~= is.subrange(3, 6));
    assert(is.subrange(3, 6).drop_first() =~= is.subrange(4, 6));
    assert(is.subrange(4, 6).drop_first() =~= is.subrange(5, 6));
    assert(is.subrange(5, 6).drop_first() =~= Seq::<Inst>::empty());
    let a = st.last();
    assert(m.mem[m.sp] == a);
    let m1 = step(Inst::Ldr(0), m);
    let m2 = step(Inst::IncSp, m1);
    let m3 = step(Inst::DecSp, m2);
    let m4 = step(Inst::Str(0), m3);
    let m5 = step(Inst::DecSp, m4);
    let m6 = step(Inst::Str(0), m5);
    assert(run_insts(is, m) == m6);
    assert(m6.mem[m6.sp] == a && m6.mem[m6.sp + 1] == a);
    assert(stack_ok(m6, st.push(a)));
}

/// `lemma_expr_template` for `swap`.
pub proof fn lemma_template_swap(m: MState, st: Seq<i64>)
    requires
        stack_ok(m, st),
        st.len() >= 2,
    ensures
        ({
            let m2 = run_insts(expr_insts(Expr::Swap), m);
            let st2 = st.drop_last().drop_last().push(st.last()).push(st[st.len() - 2]);
            stack_ok(m2, st2) && m2.sp == m.sp && m2.regs[10] == m.regs[10] && m2.regs[11]
                == m.regs[11]
        }),
{
    reveal_with_fuel(run_insts, 9);
    let is = expr_insts(Expr::Swap);
    assert(is.drop_first() =~= is.subrange(1, 8));
    assert(is.subrange(1, 8).drop_first() =~= is.subrange(2, 8));
    assert(is.subrange(2, 8).drop_first() =~= is.subrange(3, 8));
    assert(is.subrange(3, 8).drop_first() =~= is.subrange(4, 8));
    assert(is.subrange(4, 8).drop_first() =~= is.subrange(5, 8));
    assert(is.subrange(5, 8).drop_first() =~= is.subrange(6, 8));
    assert(is.subrange(6, 8).drop_first() =~= is.subrange(7, 8));
    assert(is.subrange(7, 8).drop_first() =~= Seq::<Inst>::empty());
    let a = st.last();
    let b = st[st.len() - 2];
    assert(m.mem[m.sp] == a && m.mem[m.sp + 1] == b);
    let m1 = step(Inst::Ldr(0), m);
    let m2 = step(Inst::IncSp, m1);
    let m3 = step(Inst::Ldr(1), m2);
    let m4 = step(Inst::IncSp, m3);
    let m5 = step(Inst::DecSp, m4);
    let m6 = step(Inst::Str(0), m5);
    let m7 = step(Inst::DecSp, m6);
    let m8 = step(Inst::Str(1), m7);
    assert(run_insts(is, m) == m8);
    assert(m8.mem[m8.sp] == b && m8.mem[m8.sp + 1] == a);
    assert(stack_ok(m8, st.drop_last().drop_last().push(a).push(b)));
}

/// `lemma_expr_template` for `over`.
pub proof fn lemma_template_over(m: MState, st: Seq<i64>)
    requires
        stack_ok(m, st),
        st.len() >= 2,
    ensures
        ({
            let m2 = run_insts(expr_insts(Expr::Over), m);
            stack_ok(m2, st.push(st[st.len() - 2])) && m2.sp == m.sp - 1 && m2.regs[10]
                == m.regs[10] && m2.regs[11] == m.regs[11]
        }),
{
    reveal_with_fuel(run_insts, 11);
    let is = expr_insts(Expr::Over);
    assert(is.drop_first() =~= is.subrange(1, 10));
    assert(is.subrange(1, 10).drop_first() =~= is.subrange(2, 10));
    assert(is.subrange(2, 10).drop_first() =~= is.subrange(3, 10));
    assert(is.subrange(3, 10).drop_first() =~= is.subrange(4, 10));
    assert(is.subrange(4, 10).drop_first() =~= is.subrange(5, 10));
    assert(is.subrange(5, 10).drop_first() =~= is.subrange(6, 10));
    assert(is.subrange(6, 10).drop_first() =~= is.subrange(7, 10));
    assert(is.subrange(7, 10).drop_first() =~= is.subrange(8, 10));
    assert(is.subrange(8, 10).drop_first() =~= is.subrange(9, 10));
    assert(is.subrange(9, 10).drop_first() =~= Seq::<Inst>::empty());
    let a = st.last();
    let b = st[st.len() - 2];
    assert(m.mem[m.sp] == a && m.mem[m.sp + 1] == b);
    let m1 = step(Inst::Ldr(0), m);
    let m2 = step(Inst::IncSp, m1);
    let m3 = step(Inst::Ldr(1), m2);
    let m4 = step(Inst::IncSp, m3);
    let m5 = step(Inst::DecSp, m4);
    let m6 = step(Inst::Str(1), m5);
    let m7 = step(Inst::DecSp, m6);
    let m8 = step(Inst::Str(0), m7);
    let m9 = step(Inst::DecSp, m8);
    let m10 = step(Inst::Str(1), m9);
    assert(run_insts(is, m) == m10);
    assert(m10.mem[m10.sp] == b && m10.mem[m10.sp + 1] == a && m10.mem[m10.sp + 2] == b);
    assert(stack_ok(m10, st.push(b)));
}

/// The template of one loop-free node takes a machine holding stack `st` to
/// a machine holding the node's result stack.
pub proof fn lemma_expr_template(e: Expr, m: MState, st: Seq<i64>)
    requires
        !(e is Loop),
        stack_ok(m, st),
        run_expr(e, st) is Some,
    ensures
        ({
            let m2 = run_insts(expr_insts(e), m);
            let st2 = run_expr(e, st).unwrap();
            stack_ok(m2, st2) && m2.sp == m.sp + st.len() - st2.len() && m2.regs[10]
                == m.regs[10] && m2.regs[11] == m.regs[11]
        }),
{
    match e {
        Expr::Number(x) => {
            lemma_template_number(x, m, st);
        },
        Expr::Op(o) => {
            lemma_template_op(o, m, st);
        },
        Expr::Dup => {
            lemma_template_dup(m, st);
        },
        Expr::Swap => {
            lemma_template_swap(m, st);
        },
        Expr::Over => {
            lemma_template_over(m, st);
        },
        Expr::Loop(_) => {
            assert(false);
        },
    }
}

/// Running the generated instructions of a loop-free program tracks the
/// interpreter step for step: whenever the interpreter succeeds, the machine
/// ends holding the interpreter's final stack.
pub proof fn lemma_straight_line(p: Seq<Expr>, m: MState, st: Seq<i64>)
    requires
        loop_free(p),
        stack_ok(m, st),
        run_prog(p, st) is Some,
    ensures
        ({
            let m2 = run_insts(insts_of(p), m);
            let st2 = run_prog(p, st).unwrap();
            stack_ok(m2, st2) && m2.sp == m.sp + st.len() - st2.len() && m2.regs[10]
                == m.regs[10] && m2.regs[11] == m.regs[11]
        }),
    decreases p.len(),
{
    if p.len() == 0 {
        assert(insts_of(p) =~= Seq::<Inst>::empty());
    } else {
        let e = p.first();
        assert(!(p[0] is Loop));
        let st1 = run_expr(e, st).unwrap();
        lemma_run_insts_app(expr_insts(e), insts_of(p.drop_first()), m);
        lemma_expr_template(e, m, st);
        assert(loop_free(p.drop_first())) by {
            assert(forall|k: int|
                0 <= k < p.drop_first().len() ==> p.drop_first()[k] == p[k + 1]);
        }
        lemma_straight_line(p.drop_first(), run_insts(expr_insts(e), m), st1);
    }
}

/// The abstract instructions of the complete stream `generate` emits:
/// prologue, body, and the epilogue that pops the result and returns.
pub open spec fn full_insts_of(p: Seq<Expr>) -> Seq<Inst> {
    seq![Inst::MovSpArg] + insts_of(p) + seq![Inst::Ldr(0), Inst::IncSp, Inst::Ret]
}

/// For a loop-free program that evaluates to a value, running the complete
/// generated stream leaves exactly that value in x0 — the register `ret`
/// hands back — from any starting machine. Interpreted and native results
/// agree over the whole data path.
pub proof fn lemma_native_agrees_loop_free(p: Seq<Expr>, m: MState)
    requires
        loop_free(p),
        spec_evaluate(p) is Ok,
    ensures
        run_insts(full_insts_of(p), m).regs[0] == spec_evaluate(p).unwrap(),
{
    reveal_with_fuel(run_insts, 4);
    let st0 = Seq::<i64>::empty();
    assert(stack_ok(m, st0));
    lemma_straight_line(p, m, st0);
    let m2 = run_insts(insts_of(p), m);
    let st2 = run_prog(p, st0).unwrap();
    assert(st2.len() == 1);
    assert(m2.mem[m2.sp] == st2.last());
    let head = seq![Inst::MovSpArg];
    let tail = seq![Inst::Ldr(0), Inst::IncSp, Inst::Ret];
    assert(head.drop_first() =~= Seq::<Inst>::empty());
    assert(full_insts_of(p) =~= head + (insts_of(p) + tail));
    lemma_run_insts_app(head, insts_of(p) + tail, m);
    assert(run_insts(head, m) == m);
    lemma_run_insts_app(insts_of(p), tail, m);
    assert(tail.drop_first() =~= seq![Inst::IncSp, Inst::Ret]);
    assert(tail.drop_first().drop_first() =~= seq![Inst::Ret]);
    assert(tail.drop_first().drop_first().drop_first() =~= Seq::<Inst>::empty());
}

/// One iteration of a loop as emitted: load the constant one into x11,
/// decrement the counter in x10 by it, then the body.
pub open spec fn loop_iter_insts(body: Seq<Expr>) -> Seq<Inst> {
    seq![Inst::MovImm(11, 1), Inst::SubR(10, 10, 11)] + insts_of(body)
}

/// A loop's code with its backward branch traced out: the branch re-enters
/// the iteration template while the counter is non-zero, so a count of `n`
/// traces the template `n` times over.
pub open spec fn unrolled_loop_insts(body: Seq<Expr>, n: nat) -> Seq<Inst>
    decreases n,
{
    if n == 0 {
        Seq::<Inst>::empty()
    } else {
        loop_iter_insts(body) + unrolled_loop_insts(body, (n - 1) as nat)
    }
}

/// A loop entered with a positive count `n` in the counter register, over a
/// loop-free body, performs exactly the interpreter's `n` iterations: the
/// unrolled trace ends holding the interpreter's stack with the counter at
/// zero, so the final backward branch falls through. The body may not itself
/// hold a loop, whose counter would share the register; and a zero count
/// never reaches the trace at all — the emitted code decrements before it
/// tests, so a zero count re-enters the body rather than skipping it.
pub proof fn lemma_loop_unrolled(body: Seq<Expr>, n: nat, m: MState, st: Seq<i64>)
    requires
        loop_free(body),
        1 <= n <= 0x7fff_ffff_ffff_ffff,
        m.regs[10] == n as i64,
        stack_ok(m, st),
        run_loop(body, n, st) is Some,
    ensures
        ({
            let m2 = run_insts(unrolled_loop_insts(body, n), m);
            let st2 = run_loop(body, n, st).unwrap();
            stack_ok(m2, st2) && m2.regs[10] == 0 && m2.sp == m.sp + st.len() - st2.len()
        }),
    decreases n,
{
    reveal_with_fuel(run_insts, 3);
    let iter = loop_iter_insts(body);
    let rest = unrolled_loop_insts(body, (n - 1) as nat);
    let pre = seq![Inst::MovImm(11, 1), Inst::SubR(10, 10, 11)];
    assert(pre.drop_first() =~= seq![Inst::SubR(10, 10, 11)]);
    assert(pre.drop_first().drop_first() =~= Seq::<Inst>::empty());
    let ma = step(Inst::MovImm(11, 1), m);
    let mb = step(Inst::SubR(10, 10, 11), ma);
    assert(run_insts(pre, m) == mb);
    assert(ma.regs[10] == n as i64 && ma.regs[11] == 1i64);
    assert(mb.regs[10] == n - 1);
    assert(stack_ok(mb, st));
    assert(run_prog(body, st) is Some);
    let st1 = run_prog(body, st).unwrap();
    lemma_run_insts_app(pre, insts_of(body), m);
    lemma_straight_line(body, mb, st);
    let mc = run_insts(insts_of(body), mb);
    assert(run_insts(iter, m) == mc);
    assert(mc.regs[10] == n - 1 && stack_ok(mc, st1));
    lemma_run_insts_app(iter, rest, m);
    if n == 1 {
        assert(rest =~= Seq::<Inst>::empty());
        assert(run_loop(body, 0, st1) == Some(st1));
    } else {
        lemma_loop_unrolled(body, (n - 1) as nat, mc, st1);
        assert(run_loop(body, n, st).unwrap() == run_loop(body, (n - 1) as nat, st1).unwrap());
    }
}

/// The loop template entered from the stack: the emitted code first pops
/// the count into the counter register, then runs the traced iterations.
/// For a positive count atop the stack and a loop-free body, the whole
/// template agrees with the interpreter's loop.
pub proof fn lemma_loop_entry(body: Seq<Expr>, count: i64, m: MState, st: Seq<i64>)
    requires
        loop_free(body),
        count >= 1,
        stack_ok(m, st.push(count)),
        run_loop(body, count as nat, st) is Some,
    ensures
        ({
            let m2 = run_insts(
                seq![Inst::Ldr(10), Inst::IncSp] + unrolled_loop_insts(body, count as nat),
                m,
            );
            let st2 = run_loop(body, count as nat, st).unwrap();
            stack_ok(m2, st2) && m2.regs[10] == 0 && m2.sp == m.sp + 1 + st.len() - st2.len()
        }),
{
    reveal_with_fuel(run_insts, 3);
    let pop = seq![Inst::Ldr(10), Inst::IncSp];
    assert(pop.drop_first() =~= seq![Inst::IncSp]);
    assert(pop.drop_first().drop_first() =~= Seq::<Inst>::empty());
    let ma = step(Inst::Ldr(10), m);
    let mb = step(Inst::IncSp, ma);
    assert(m.mem[m.sp] == count);
    assert(mb.regs[10] == count);
    assert(run_insts(pop, m) == mb);
    assert(stack_ok(mb, st));
    lemma_run_insts_app(pop, unrolled_loop_insts(body, count as nat), m);
    lemma_loop_unrolled(body, count as nat, mb, st);
}

/// Each abstract instruction encodes to one word: the emitted stream is
/// exactly the encoding, instruction by instruction, of the abstract
/// program.
pub proof fn lemma_code_words(p: Seq<Expr>)
    ensures
        code_of(p) == insts_of(p).map_values(|x: Inst| encode(x)),
    decreases prog_size(p), 2int, p.len(),
{
    if p.len() == 0 {
        assert(code_of(p) =~= insts_of(p).map_values(|x: Inst| encode(x)));
    } else {
        lemma_expr_code_words(p.first());
        lemma_code_words(p.drop_first());
        assert(code_of(p) =~= insts_of(p).map_values(|x: Inst| encode(x)));
    }
}

/// The complete emitted stream is the encoding, word for word, of the
/// complete abstract program: what `generate` returns is `full_insts_of`
/// under `encode`.
pub proof fn lemma_full_code_words(p: Seq<Expr>)
    ensures
        full_code_of(p) == full_insts_of(p).map_values(|x: Inst| encode(x)),
{
    lemma_code_words(p);
    assert(full_code_of(p) =~= full_insts_of(p).map_values(|x: Inst| encode(x)));
}

/// `lemma_code_words` for one node.
pub proof fn lemma_expr_code_words(e: Expr)
    ensures
        expr_code(e) == expr_insts(e).map_values(|x: Inst| encode(x)),
    decreases expr_size(e), 1int, 0int,
{
    match e {
        Expr::Loop(body) => {
            lemma_code_words(body@);
            assert(expr_code(e) =~= expr_insts(e).map_values(|x: Inst| encode(x)));
        },
        _ => {
            assert(expr_code(e) =~= expr_insts(e).map_values(|x: Inst| encode(x)));
        },
    }
}

} // verus!
