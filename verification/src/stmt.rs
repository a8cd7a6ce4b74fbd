use vstd::prelude::*;

use crate::expr::{expr_view, ExprView, Expression};

verus! {

#[derive(Debug, PartialEq)]
pub enum Statement {
    Print(Expression),
    ExprStatement(Expression),
    Var(String, Option<Expression>, u64),
    Block(Vec<Statement>),
    If(Expression, Box<Statement>, Option<Box<Statement>>),
    While(Expression, Box<Statement>),
    Function(String, Vec<String>, Vec<Statement>, u64),
    Return(u64, Option<Expression>),
    Class(String, u64, Option<Expression>, Vec<Statement>),
}

/// The mathematical value of a statement.
pub enum StmtView {
    Print(ExprView),
    ExprStatement(ExprView),
    Var(Seq<char>, Option<ExprView>, u64),
    Block(Seq<StmtView>),
    If(ExprView, Box<StmtView>, Option<Box<StmtView>>),
    While(ExprView, Box<StmtView>),
    Function(Seq<char>, Seq<Seq<char>>, Seq<StmtView>, u64),
    Return(u64, Option<ExprView>),
    Class(Seq<char>, u64, Option<ExprView>, Seq<StmtView>),
}

pub open spec fn opt_expr_view(e: Option<Expression>) -> Option<ExprView> {
    match e {
        Some(x) => Some(expr_view(x)),
        None => None,
    }
}

pub open spec fn names_view(names: Seq<String>) -> Seq<Seq<char>> {
    names.map_values(|s: String| s@)
}

pub open spec fn stmt_view(s: Statement) -> StmtView
    decreases s,
{
    match s {
        Statement::Print(e) => StmtView::Print(expr_view(e)),
        Statement::ExprStatement(e) => StmtView::ExprStatement(expr_view(e)),
        Statement::Var(name, init, line) => StmtView::Var(name@, opt_expr_view(init), line),
        Statement::Block(body) => StmtView::Block(stmts_view(body@)),
        Statement::If(c, t, e) => StmtView::If(
            expr_view(c),
            Box::new(stmt_view(*t)),
            match e {
                Some(b) => Some(Box::new(stmt_view(*b))),
                None => None,
            },
        ),
        Statement::While(c, b) => StmtView::While(expr_view(c), Box::new(stmt_view(*b))),
        Statement::Function(name, params, body, line) => StmtView::Function(
            name@,
            names_view(params@),
            stmts_view(body@),
            line,
        ),
        Statement::Return(line, v) => StmtView::Return(line, opt_expr_view(v)),
        Statement::Class(name, line, sup, body) => StmtView::Class(
            name@,
            line,
            opt_expr_view(sup),
            stmts_view(body@),
        ),
    }
}

pub open spec fn stmts_view(s: Seq<Statement>) -> Seq<StmtView>
    decreases s,
{
    if s.len() == 0 {
        Seq::empty()
    } else {
        stmts_view(s.drop_last()).push(stmt_view(s.last()))
    }
}

impl View for Statement {
    type V = StmtView;

    open spec fn view(&self) -> StmtView {
        stmt_view(*self)
    }
}

pub proof fn lemma_stmts_view_push(s: Seq<Statement>, x: Statement)
    ensures
        stmts_view(s.push(x)) == stmts_view(s).push(stmt_view(x)),
        stmts_view(s).len() == s.len(),
    decreases s.len(),
{
    assert(s.push(x).drop_last() =~= s);
    if s.len() > 0 {
        lemma_stmts_view_push(s.drop_last(), s.last());
        assert(s.drop_last().push(s.last()) =~= s);
    }
}

pub proof fn lemma_stmts_view_index(s: Seq<Statement>)
    ensures
        stmts_view(s).len() == s.len(),
        forall|i: int| 0 <= i < s.len() ==> #[trigger] stmts_view(s)[i] == stmt_view(s[i]),
    decreases s.len(),
{
    if s.len() > 0 {
        lemma_stmts_view_index(s.drop_last());
        assert forall|i: int| 0 <= i < s.len() implies #[trigger] stmts_view(s)[i] == stmt_view(s[i]) by {
            if i < s.len() - 1 {
                assert(s.drop_last()[i] == s[i]);
            }
        }
    }
}

} // verus!
