//! Laws of the stack-shuffling operators and of loops, proved once and for
//! all against the interpreter's semantics.

use vstd::prelude::*;

use crate::ast::Expr;
use crate::ast::Op;
use crate::interp::{loop_count, op_val, run_expr, run_loop, run_prog};

verus! {

/// Duplicating the top value and then applying a binary operator combines
/// the value with itself: on a stack topped by `x`, running `dup` and then
/// an operator replaces `x` with `op(x, x)`.
pub proof fn lemma_dup_then_op(o: Op, st: Seq<i64>)
    requires
        st.len() >= 1,
    ensures
        run_prog(seq![Expr::Dup, Expr::Op(o)], st) == Some(
            st.drop_last().push(op_val(o, st.last(), st.last())),
        ),
{
    reveal_with_fuel(run_prog, 4);
    let p = seq![Expr::Dup, Expr::Op(o)];
    let st1 = st.push(st.last());
    assert(p.drop_first() =~= seq![Expr::Op(o)]);
    assert(p.drop_first().drop_first() =~= Seq::<Expr>::empty());
    assert(st1.drop_last().drop_last() =~= st.drop_last());
    assert(st1.last() == st.last() && st1[st1.len() - 2] == st.last());
    assert(run_expr(p.drop_first().first(), st1) == Some(
        st.drop_last().push(op_val(o, st.last(), st.last())),
    ));
}

/// Exchanging the top two values twice restores the original stack: `swap`
/// is an involution on any stack with at least two values.
pub proof fn lemma_swap_involution(st: Seq<i64>)
    requires
        st.len() >= 2,
    ensures
        run_prog(seq![Expr::Swap, Expr::Swap], st) == Some(st),
{
    reveal_with_fuel(run_prog, 4);
    let p = seq![Expr::Swap, Expr::Swap];
    let a = st.last();
    let b = st[st.len() - 2];
    let st1 = st.drop_last().drop_last().push(a).push(b);
    assert(p.drop_first() =~= seq![Expr::Swap]);
    assert(p.drop_first().drop_first() =~= Seq::<Expr>::empty());
    assert(st1.last() == b && st1[st1.len() - 2] == a);
    assert(st1.drop_last().drop_last() =~= st.drop_last().drop_last());
    let st2 = st1.drop_last().drop_last().push(b).push(a);
    assert(run_expr(p.drop_first().first(), st1) == Some(st2));
    assert(st2 =~= st);
}

/// `over` and then `swap` leave the original second value duplicated under
/// the original top: discarding the new top then shows the original second
/// value on top of the stack. This pins `over`'s semantics operationally.
pub proof fn lemma_over_swap_discard(st: Seq<i64>)
    requires
        st.len() >= 2,
    ensures
        run_prog(seq![Expr::Over, Expr::Swap], st) == Some(
            st.drop_last().push(st[st.len() - 2]).push(st.last()),
        ),
        st.drop_last().push(st[st.len() - 2]).last() == st[st.len() - 2],
{
    reveal_with_fuel(run_prog, 4);
    let p = seq![Expr::Over, Expr::Swap];
    let a = st.last();
    let b = st[st.len() - 2];
    let st1 = st.drop_last().drop_last().push(b).push(a).push(b);
    assert(p.drop_first() =~= seq![Expr::Swap]);
    assert(p.drop_first().drop_first() =~= Seq::<Expr>::empty());
    assert(run_expr(p.first(), st) == Some(st1));
    assert(st1.last() == b && st1[st1.len() - 2] == a);
    let st2 = st1.drop_last().drop_last().push(b).push(a);
    assert(run_expr(p.drop_first().first(), st1) == Some(st2));
    assert(st1.drop_last().drop_last() =~= st.drop_last().drop_last().push(b));
    assert(st2 =~= st.drop_last().push(b).push(a));
}

/// A loop whose popped count is zero performs no iterations: it consumes
/// the count and leaves the rest of the stack untouched, whatever its body
/// holds.
pub proof fn lemma_loop_zero(body: Vec<Expr>, st: Seq<i64>)
    requires
        st.len() >= 1,
        st.last() == 0,
    ensures
        run_prog(seq![Expr::Loop(body)], st) == Some(st.drop_last()),
{
    reveal_with_fuel(run_prog, 3);
    let p = seq![Expr::Loop(body)];
    assert(p.drop_first() =~= Seq::<Expr>::empty());
    assert(loop_count(st.last()) == 0);
    assert(run_loop(body@, 0, st.drop_last()) == Some(st.drop_last()));
    assert(run_expr(p.first(), st) == Some(st.drop_last()));
}

} // verus!
