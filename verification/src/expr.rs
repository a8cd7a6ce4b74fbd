use vstd::prelude::*;

use crate::token::{BinaryOp, LogicalOp, Token, TokenLiteral, UnaryOp};

verus! {

/// The counter's value after handing out the identifier `c`: the next
/// integer, wrapping around to 0 after `usize::MAX`.
pub open spec fn after_id(c: usize) -> usize {
    if c == usize::MAX {
        0
    } else {
        (c + 1) as usize
    }
}

/// The counter's value after `n` identifiers were handed out from `c0`.
pub open spec fn counter_after(c0: usize, n: nat) -> usize
    decreases n,
{
    if n == 0 {
        c0
    } else {
        after_id(counter_after(c0, (n - 1) as nat))
    }
}

/// Hands out the next expression identifier from `counter` and moves the
/// counter on (wrapping around, as an atomic `fetch_add` does).
pub fn next_id(counter: &mut usize) -> (id: usize)
    ensures
        id == *old(counter),
        *final(counter) == after_id(*old(counter)),
{
    let id = *counter;
    *counter = if id == usize::MAX { 0 } else { id + 1 };
    id
}

/// Law: `n` calls of `next_id` in turn on a counter at `c0`, with
/// `c0 + n <= usize::MAX`, hand out exactly `c0, c0 + 1, ..., c0 + n - 1`
/// (the `k`-th call the value `counter_after(c0, k)`), which are pairwise
/// distinct, and leave the counter at `c0 + n`.
pub proof fn law_next_id_sequence(c0: usize, n: nat)
    requires
        c0 + n <= usize::MAX,
    ensures
        counter_after(c0, n) == c0 + n,
        forall|k: nat| k < n ==> #[trigger] counter_after(c0, k) == c0 + k,
        forall|j: nat, k: nat| j < n && k < n && j != k ==> #[trigger] counter_after(c0, j) != #[trigger] counter_after(c0, k),
    decreases n,
{
    if n > 0 {
        law_next_id_sequence(c0, (n - 1) as nat);
        assert forall|k: nat| k < n implies #[trigger] counter_after(c0, k) == c0 + k by {
            if k < n - 1 {
            } else {
                assert(k == n - 1);
            }
        }
    }
}

#[derive(Debug, PartialEq)]
pub enum Expression {
    Binary(Box<Expression>, BinaryOp, u64, Box<Expression>),
    Unary(UnaryOp, u64, Box<Expression>),
    Grouping(Box<Expression>),
    Literal(TokenLiteral),
    Variable(String, u64, usize),
    Assign(String, u64, Box<Expression>, usize),
    Logical(Box<Expression>, LogicalOp, u64, Box<Expression>),
    Call(Box<Expression>, Vec<Expression>, Token),
    Get(Box<Expression>, Token),
    SetProperty(Box<Expression>, Token, Box<Expression>),
    This(Token, usize),
    Super(Token, Token, usize),
}

/// The mathematical value of a literal.
pub enum LiteralView {
    StringLiteral(Seq<char>),
    Number(Seq<char>),
    Boolean(bool),
    Null,
}

/// The mathematical value of an expression: strings become character
/// sequences and argument lists become sequences.
pub enum ExprView {
    Binary(Box<ExprView>, BinaryOp, u64, Box<ExprView>),
    Unary(UnaryOp, u64, Box<ExprView>),
    Grouping(Box<ExprView>),
    Literal(LiteralView),
    Variable(Seq<char>, u64, usize),
    Assign(Seq<char>, u64, Box<ExprView>, usize),
    Logical(Box<ExprView>, LogicalOp, u64, Box<ExprView>),
    Call(Box<ExprView>, Seq<ExprView>, Token),
    Get(Box<ExprView>, Token),
    SetProperty(Box<ExprView>, Token, Box<ExprView>),
    This(Token, usize),
    Super(Token, Token, usize),
}

pub open spec fn literal_view(l: TokenLiteral) -> LiteralView {
    match l {
        TokenLiteral::StringLiteral(s) => LiteralView::StringLiteral(s@),
        TokenLiteral::Number(s) => LiteralView::Number(s@),
        TokenLiteral::Boolean(b) => LiteralView::Boolean(b),
        TokenLiteral::Null => LiteralView::Null,
    }
}

pub open spec fn expr_view(e: Expression) -> ExprView
    decreases e,
{
    match e {
        Expression::Binary(l, op, line, r) => ExprView::Binary(
            Box::new(expr_view(*l)),
            op,
            line,
            Box::new(expr_view(*r)),
        ),
        Expression::Unary(op, line, x) => ExprView::Unary(op, line, Box::new(expr_view(*x))),
        Expression::Grouping(x) => ExprView::Grouping(Box::new(expr_view(*x))),
        Expression::Literal(l) => ExprView::Literal(literal_view(l)),
        Expression::Variable(name, line, id) => ExprView::Variable(name@, line, id),
        Expression::Assign(name, line, x, id) => ExprView::Assign(name@, line, Box::new(expr_view(*x)), id),
        Expression::Logical(l, op, line, r) => ExprView::Logical(
            Box::new(expr_view(*l)),
            op,
            line,
            Box::new(expr_view(*r)),
        ),
        Expression::Call(callee, args, paren) => ExprView::Call(
            Box::new(expr_view(*callee)),
            exprs_view(args@),
            paren,
        ),
        Expression::Get(x, name) => ExprView::Get(Box::new(expr_view(*x)), name),
        Expression::SetProperty(x, name, v) => ExprView::SetProperty(Box::new(expr_view(*x)), name, Box::new(expr_view(*v))),
        Expression::This(t, id) => ExprView::This(t, id),
        Expression::Super(t, m, id) => ExprView::Super(t, m, id),
    }
}

pub open spec fn exprs_view(s: Seq<Expression>) -> Seq<ExprView>
    decreases s,
{
    if s.len() == 0 {
        Seq::empty()
    } else {
        exprs_view(s.drop_last()).push(expr_view(s.last()))
    }
}

impl View for Expression {
    type V = ExprView;

    open spec fn view(&self) -> ExprView {
        expr_view(*self)
    }
}

pub proof fn lemma_exprs_view_len(s: Seq<Expression>)
    ensures
        exprs_view(s).len() == s.len(),
    decreases s.len(),
{
    if s.len() > 0 {
        lemma_exprs_view_len(s.drop_last());
    }
}

pub proof fn lemma_exprs_view_push(s: Seq<Expression>, e: Expression)
    ensures
        exprs_view(s.push(e)) == exprs_view(s).push(expr_view(e)),
        exprs_view(s).len() == s.len(),
    decreases s.len(),
{
    assert(s.push(e).drop_last() =~= s);
    if s.len() > 0 {
        lemma_exprs_view_push(s.drop_last(), s.last());
        assert(s.drop_last().push(s.last()) =~= s);
    }
}

pub proof fn lemma_exprs_view_index(s: Seq<Expression>)
    ensures
        exprs_view(s).len() == s.len(),
        forall|i: int| 0 <= i < s.len() ==> #[trigger] exprs_view(s)[i] == expr_view(s[i]),
    decreases s.len(),
{
    if s.len() > 0 {
        lemma_exprs_view_index(s.drop_last());
        assert forall|i: int| 0 <= i < s.len() implies #[trigger] exprs_view(s)[i] == expr_view(s[i]) by {
            if i < s.len() - 1 {
                assert(s.drop_last()[i] == s[i]);
            }
        }
    }
}

} // verus!
