//! The reference interpreter: a tree-walking evaluator over a value stack,
//! used as the ground truth that native execution is compared against.
//!
//! Values are 64-bit signed integers, matching the width of the target's
//! registers, and the operators wrap on overflow exactly as the generated
//! native arithmetic does.

use vstd::prelude::*;

use crate::ast::{Expr, Op, expr_size, lemma_prog_size_index, prog_size};

verus! {

/// What evaluating a whole program can report.
#[derive(Copy, Clone, Debug, PartialEq, Eq, Structural)]
pub enum EvalError {
    /// A pop was attempted against an empty stack.
    StackUnderflow,
    /// Evaluation finished with more or fewer than one value on the stack.
    BadResultCount,
}

/// The value an operator leaves on the stack, where `a` was popped first
/// (the old top) and `b` second. Subtraction takes the first-popped operand
/// as the subtrahend: `b - a`.
pub open spec fn op_val(o: Op, a: i64, b: i64) -> i64 {
    match o {
        Op::Add => vstd::wrapping::i64_specs::wrapping_add(a, b),
        Op::Sub => vstd::wrapping::i64_specs::wrapping_sub(b, a),
        Op::Mul => vstd::wrapping::i64_specs::wrapping_mul(a, b),
    }
}

/// The iteration count a loop performs for a popped value: the value itself
/// if positive, else zero.
pub open spec fn loop_count(n: i64) -> nat {
    if n > 0 {
        n as nat
    } else {
        0
    }
}

/// Runs a program left to right against a stack (top at the end of the
/// sequence). `None` means a pop found the stack empty.
pub open spec fn run_prog(p: Seq<Expr>, st: Seq<i64>) -> Option<Seq<i64>>
    decreases prog_size(p), 2int, p.len(),
{
    if p.len() == 0 {
        Some(st)
    } else {
        match run_expr(p.first(), st) {
            None => None,
            Some(st1) => run_prog(p.drop_first(), st1),
        }
    }
}

/// Runs one node against a stack.
pub open spec fn run_expr(e: Expr, st: Seq<i64>) -> Option<Seq<i64>>
    decreases expr_size(e), 1int, 0int,
{
    match e {
        Expr::Number(x) => Some(st.push(x as i64)),
        Expr::Op(o) => if st.len() < 2 {
            None
        } else {
            Some(st.drop_last().drop_last().push(op_val(o, st.last(), st[st.len() - 2])))
        },
        Expr::Dup => if st.len() < 1 {
            None
        } else {
            Some(st.push(st.last()))
        },
        Expr::Swap => if st.len() < 2 {
            None
        } else {
            Some(st.drop_last().drop_last().push(st.last()).push(st[st.len() - 2]))
        },
        Expr::Over => if st.len() < 2 {
            None
        } else {
            Some(
                st.drop_last().drop_last().push(st[st.len() - 2]).push(st.last()).push(
                    st[st.len() - 2],
                ),
            )
        },
        Expr::Loop(body) => if st.len() < 1 {
            None
        } else {
            run_loop(body@, loop_count(st.last()), st.drop_last())
        },
    }
}

/// Runs a loop body `n` times in sequence over the same stack.
pub open spec fn run_loop(body: Seq<Expr>, n: nat, st: Seq<i64>) -> Option<Seq<i64>>
    decreases prog_size(body), 3int, n,
{
    if n == 0 {
        Some(st)
    } else {
        match run_prog(body, st) {
            None => None,
            Some(st1) => run_loop(body, (n - 1) as nat, st1),
        }
    }
}

/// The result of evaluating a program from an empty stack: the sole remaining
/// value, or the error that stopped evaluation.
pub open spec fn spec_evaluate(p: Seq<Expr>) -> Result<i64, EvalError> {
    match run_prog(p, Seq::<i64>::empty()) {
        None => Err(EvalError::StackUnderflow),
        Some(st) => if st.len() == 1 {
            Ok(st.last())
        } else {
            Err(EvalError::BadResultCount)
        },
    }
}

/// Executes `expression` against `stack`, returning whether every pop found a
/// value. On success the stack holds exactly what the semantics prescribe; a
/// failed run aborts with no promise about the partially updated stack.
#[verifier::loop_isolation(false)]
pub fn interpret(expression: &Vec<Expr>, stack: &mut Vec<i64>) -> (ok: bool)
    ensures
        match run_prog(expression@, old(stack)@) {
            Some(st) => ok && final(stack)@ == st,
            None => !ok,
        },
    decreases prog_size(expression@),
{
    let n = expression.len();
    let mut i: usize = 0;
    proof {
        assert(expression@.skip(0) =~= expression@);
    }
    while i < n
        invariant
            n == expression@.len(),
            i <= n,
            run_prog(expression@, old(stack)@) == run_prog(expression@.skip(i as int), stack@),
        decreases n - i,
    {
        proof {
            assert(expression@.skip(i as int).first() == expression@[i as int]);
            assert(expression@.skip(i as int).drop_first() =~= expression@.skip(i as int + 1));
        }
        let ghost st_before = stack@;
        match &expression[i] {
            Expr::Number(x) => {
                stack.push(*x as i64);
            },
            Expr::Op(o) => {
                if stack.len() < 2 {
                    proof {
                        assert(run_expr(expression@[i as int], stack@) is None);
                        assert(run_prog(expression@.skip(i as int), stack@) is None);
                    }
                    return false;
                }
                let a = stack.pop().unwrap();
                let b = stack.pop().unwrap();
                let v = match o {
                    Op::Add => a.wrapping_add(b),
                    Op::Sub => b.wrapping_sub(a),
                    Op::Mul => a.wrapping_mul(b),
                };
                stack.push(v);
                proof {
                    assert(stack@ =~= st_before.drop_last().drop_last().push(
                        op_val(*o, st_before.last(), st_before[st_before.len() - 2]),
                    ));
                }
            },
            Expr::Dup => {
                if stack.len() < 1 {
                    proof {
                        assert(run_expr(expression@[i as int], stack@) is None);
                        assert(run_prog(expression@.skip(i as int), stack@) is None);
                    }
                    return false;
                }
                let x = stack.pop().unwrap();
                stack.push(x);
                stack.push(x);
                proof {
                    assert(stack@ =~= st_before.push(st_before.last()));
                }
            },
            Expr::Swap => {
                if stack.len() < 2 {
                    proof {
                        assert(run_expr(expression@[i as int], stack@) is None);
                        assert(run_prog(expression@.skip(i as int), stack@) is None);
                    }
                    return false;
                }
                let a = stack.pop().unwrap();
                let b = stack.pop().unwrap();
                stack.push(a);
                stack.push(b);
                proof {
                    assert(stack@ =~= st_before.drop_last().drop_last().push(
                        st_before.last(),
                    ).push(st_before[st_before.len() - 2]));
                }
            },
            Expr::Over => {
                if stack.len() < 2 {
                    proof {
                        assert(run_expr(expression@[i as int], stack@) is None);
                        assert(run_prog(expression@.skip(i as int), stack@) is None);
                    }
                    return false;
                }
                let a = stack.pop().unwrap();
                let b = stack.pop().unwrap();
                stack.push(b);
                stack.push(a);
                stack.push(b);
                proof {
                    assert(stack@ =~= st_before.drop_last().drop_last().push(
                        st_before[st_before.len() - 2],
                    ).push(st_before.last()).push(st_before[st_before.len() - 2]));
                }
            },
            Expr::Loop(body) => {
                if stack.len() < 1 {
                    proof {
                        assert(run_expr(expression@[i as int], stack@) is None);
                        assert(run_prog(expression@.skip(i as int), stack@) is None);
                    }
                    return false;
                }
                let times = stack.pop().unwrap();
                let ghost st0 = stack@;
                let ghost n0 = loop_count(times);
                proof {
                    lemma_prog_size_index(expression@, i as int);
                    assert(st0 =~= st_before.drop_last());
                    assert(run_expr(expression@[i as int], st_before) == run_loop(body@, n0, st0));
                }
                let mut k: i64 = times;
                while k > 0
                    invariant
                        run_loop(body@, n0, st0) == run_loop(body@, loop_count(k), stack@),
                    decreases k,
                {
                    let ghost pre = stack@;
                    let ok = interpret(body, stack);
                    if !ok {
                        proof {
                            assert(run_loop(body@, loop_count(k), pre) is None);
                            assert(run_expr(expression@[i as int], st_before) is None);
                            assert(run_prog(expression@.skip(i as int), st_before) is None);
                        }
                        return false;
                    }
                    k = k - 1;
                }
                proof {
                    assert(run_loop(body@, n0, st0) == Some(stack@));
                }
            },
        }
        i = i + 1;
    }
    proof {
        assert(expression@.skip(n as int) =~= Seq::<Expr>::empty());
    }
    true
}

/// Evaluates a whole program from an empty stack and returns the single
/// remaining value, reporting an underflow or a wrong number of leftover
/// values instead of tolerating either.
pub fn evaluate(program: &Vec<Expr>) -> (r: Result<i64, EvalError>)
    ensures
        r == spec_evaluate(program@),
{
    let mut stack: Vec<i64> = Vec::new();
    let ok = interpret(program, &mut stack);
    if !ok {
        return Err(EvalError::StackUnderflow);
    }
    if stack.len() != 1 {
        return Err(EvalError::BadResultCount);
    }
    let v = stack.pop().unwrap();
    Ok(v)
}

} // verus!
