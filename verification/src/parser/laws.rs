//! What the parser's results say of the tokens they were parsed from.
use vstd::prelude::*;

use crate::stmt::StmtView;
use crate::expr::ExprView;
use crate::token::{binary_token, logical_token, unary_token, Token, TokenKind};
use super::grammar::{adv, at_end, binary_op, expr_stmt, for_stmt, kind, logical_op, parse_unary, var_stmt, Level, PState};
use super::ids::tokens_ok;

verus! {

/// Law: a `for` loop keeps its initializer clause. When the clause after
/// `for (` is a bare `;` the loop becomes a block holding the `while` loop
/// alone; otherwise the block's first statement is the clause itself, as
/// a `var` declaration or an expression statement parses it, and its
/// second is the `while` loop.
pub proof fn law_for_keeps_initializer(t: Seq<Token>, s: PState)
    requires
        tokens_ok(t),
        0 <= s.pos < t.len(),
        !at_end(t, s),
        for_stmt(t, s).0 is Some,
    ensures
        ({
            let clause = adv(adv(s));
            let parsed = for_stmt(t, s).0->Some_0;
            &&& parsed is Block
            &&& if kind(t, clause) is Semicolon {
                parsed->Block_0.len() == 1
            } else if kind(t, clause) is Var {
                parsed->Block_0.len() == 2 && parsed->Block_0[0] == var_stmt(t, clause).0->Ok_0
            } else {
                parsed->Block_0.len() == 2 && parsed->Block_0[0] == expr_stmt(t, clause).0->Ok_0
            }
            &&& parsed->Block_0.last() is While
        }),
{
}

/// Law: an operator token continuing a binary or logical chain is parsed
/// as the operator of the same name: `==` as `EqualEqual`, `-` as `Minus`,
/// `and` as `And`, at whatever level it is taken.
pub proof fn law_operator_as_written(level: Level, k: TokenKind)
    ensures
        binary_op(level, k) matches Some(op) ==> binary_token(op) == k,
        logical_op(level, k) matches Some(op) ==> logical_token(op) == k,
{
}

/// Law: a prefix `!` or `-` is parsed as the prefix operator of the same
/// name.
pub proof fn law_prefix_as_written(t: Seq<Token>, s: PState)
    requires
        0 <= s.pos < t.len(),
        kind(t, s) is Bang || kind(t, s) is Minus,
    ensures
        parse_unary(t, s).0 matches Ok(ExprView::Unary(op, _, _)) ==> unary_token(op) == kind(t, s),
{
}


} // verus!
