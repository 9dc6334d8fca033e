//! The abstract syntax of the stack language, shared by the interpreter and
//! the code generator.

use vstd::prelude::*;

verus! {

/// The arithmetic operators of the language.
#[derive(Copy, Clone, Debug, PartialEq, Eq, Structural)]
pub enum Op {
    Add,
    Mul,
    Sub,
}

/// One node of the abstract syntax tree.
///
/// A program is an ordered sequence of nodes, executed left to right against a
/// value stack; a `Loop` owns its body exclusively and repeats it as many
/// times as the count popped at loop entry.
#[derive(Debug)]
pub enum Expr {
    /// Push this constant.
    Number(u16),
    /// Pop two values, combine them, push the result.
    Op(Op),
    /// Pop a count, then run the body that many times.
    Loop(Vec<Expr>),
    /// Duplicate the top value.
    Dup,
    /// Exchange the top two values.
    Swap,
    /// Copy the second value over the top.
    Over,
}

/// Number of nodes in a program, counted through loop bodies; the termination
/// measure for everything that walks the tree.
pub open spec fn prog_size(s: Seq<Expr>) -> nat
    decreases s,
{
    if s.len() == 0 {
        0
    } else {
        expr_size(s.first()) + prog_size(s.drop_first())
    }
}

/// Number of nodes in one expression, counted through loop bodies.
pub open spec fn expr_size(e: Expr) -> nat
    decreases e,
{
    match e {
        Expr::Loop(body) => 1 + prog_size(body@),
        _ => 1,
    }
}

/// The mathematical mirror of `Expr`: the same tree shape with a `Seq` for
/// each loop body, so that contracts can build and compare programs without
/// constructing executable vectors.
pub enum ExprView {
    Number(u16),
    Op(Op),
    Loop(Seq<ExprView>),
    Dup,
    Swap,
    Over,
}

/// The abstraction of one node.
pub open spec fn abs_expr(e: Expr) -> ExprView
    decreases e,
{
    match e {
        Expr::Number(x) => ExprView::Number(x),
        Expr::Op(o) => ExprView::Op(o),
        Expr::Loop(body) => ExprView::Loop(abs_prog(body@)),
        Expr::Dup => ExprView::Dup,
        Expr::Swap => ExprView::Swap,
        Expr::Over => ExprView::Over,
    }
}

/// The abstraction of a program, node by node.
pub open spec fn abs_prog(s: Seq<Expr>) -> Seq<ExprView>
    decreases s,
{
    if s.len() == 0 {
        Seq::<ExprView>::empty()
    } else {
        seq![abs_expr(s.first())] + abs_prog(s.drop_first())
    }
}

/// Abstraction keeps a program's length.
pub proof fn lemma_abs_prog_len(s: Seq<Expr>)
    ensures
        abs_prog(s).len() == s.len(),
    decreases s.len(),
{
    if s.len() > 0 {
        lemma_abs_prog_len(s.drop_first());
    }
}

/// Abstracting one node appended to a program appends its abstraction.
pub proof fn lemma_abs_prog_snoc(s: Seq<Expr>, e: Expr)
    ensures
        abs_prog(s.push(e)) == abs_prog(s) + seq![abs_expr(e)],
    decreases s.len(),
{
    if s.len() == 0 {
        assert(s.push(e).first() == e);
        assert(s.push(e).drop_first() =~= Seq::<Expr>::empty());
        assert(abs_prog(s.push(e).drop_first()) =~= Seq::<ExprView>::empty());
        assert(abs_prog(s.push(e)) =~= abs_prog(s) + seq![abs_expr(e)]);
    } else {
        assert(s.push(e).first() == s.first());
        assert(s.push(e).drop_first() =~= s.drop_first().push(e));
        lemma_abs_prog_snoc(s.drop_first(), e);
        assert(abs_prog(s.push(e)) =~= abs_prog(s) + seq![abs_expr(e)]);
    }
}

/// A node within a program counts no more than the whole program.
pub proof fn lemma_prog_size_index(s: Seq<Expr>, i: int)
    requires
        0 <= i < s.len(),
    ensures
        expr_size(s[i]) <= prog_size(s),
    decreases i,
{
    if i == 0 {
        assert(s.first() == s[0]);
    } else {
        lemma_prog_size_index(s.drop_first(), i - 1);
        assert(s.drop_first()[i - 1] == s[i]);
    }
}

} // verus!
