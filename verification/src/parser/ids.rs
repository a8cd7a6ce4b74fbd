//! The identifiers the parser hands out to expressions: each parsed
//! expression carries distinct ones, taken from the counter in order.
use vstd::prelude::*;

use crate::expr::ExprView;
use crate::stmt::StmtView;
use crate::token::{Token, TokenType};
use super::grammar::{at_end, block_loop, block_stmt, expr_stmt, for_init, for_stmt, function_stmt, if_stmt, param_loop, parse_all, print_stmt, return_stmt, statement, sync_loop, synchronize, var_stmt, while_stmt, desugar_for, MaybeStmt, StmtOutcome, adv, args_loop, binary_op, call_loop, check, is_binary_level, kept, kind, logical_loop, logical_op, moved, parse_assignment, parse_binary, parse_call, parse_logical, parse_primary, parse_unary, rank, report, take_id, tok, binary_loop, ExprOutcome, Level, PState, ParseErrorView};

verus! {

/// The identifiers carried by an expression (by its variable, assignment,
/// `this` and `super` nodes), left to right.
pub open spec fn expr_ids(e: ExprView) -> Seq<usize>
    decreases e,
{
    match e {
        ExprView::Binary(l, _, _, r) => expr_ids(*l) + expr_ids(*r),
        ExprView::Unary(_, _, x) => expr_ids(*x),
        ExprView::Grouping(x) => expr_ids(*x),
        ExprView::Literal(_) => Seq::empty(),
        ExprView::Variable(_, _, id) => seq![id],
        ExprView::Assign(_, _, x, id) => seq![id] + expr_ids(*x),
        ExprView::Logical(l, _, _, r) => expr_ids(*l) + expr_ids(*r),
        ExprView::Call(c, args, _) => expr_ids(*c) + args_ids(args),
        ExprView::Get(x, _) => expr_ids(*x),
        ExprView::SetProperty(x, _, v) => expr_ids(*x) + expr_ids(*v),
        ExprView::This(_, id) => seq![id],
        ExprView::Super(_, _, id) => seq![id],
    }
}

/// The identifiers carried by a list of expressions, in order.
pub open spec fn args_ids(es: Seq<ExprView>) -> Seq<usize>
    decreases es,
{
    if es.len() == 0 {
        Seq::empty()
    } else {
        args_ids(es.drop_last()) + expr_ids(es.last())
    }
}

/// `ids` has no repeated identifier, and each lies in `lo..hi`.
pub open spec fn fresh(ids: Seq<usize>, lo: int, hi: int) -> bool {
    &&& ids.no_duplicates()
    &&& forall|i: int| #![trigger ids[i]] 0 <= i < ids.len() ==> lo <= ids[i] && ids[i] < hi
}

/// The tokens end with the end-of-file token.
pub open spec fn tokens_ok(t: Seq<Token>) -> bool {
    t.len() > 0 && t.last().token_type is EOF
}

/// The parser stands on a token, and the counter can hand out one
/// identifier per remaining token without wrapping around.
pub open spec fn room(t: Seq<Token>, s: PState) -> bool {
    0 <= s.pos < t.len() && s.ids + (t.len() - s.pos) <= usize::MAX
}

/// From `s0` to `s1` the counter went up by at most the number of tokens taken.
pub open spec fn counted(s0: PState, s1: PState) -> bool {
    s0.ids <= s1.ids && s1.ids - s0.ids <= s1.pos - s0.pos
}

/// From `s0` to `s1` errors were only added after those already reported.
pub open spec fn appended(s0: PState, s1: PState) -> bool {
    &&& s0.errors.len() <= s1.errors.len()
    &&& forall|i: int| 0 <= i < s0.errors.len() ==> #[trigger] s1.errors[i] == s0.errors[i]
}

/// A parser that failed reported its error last.
pub open spec fn err_last<X>(o: (Result<X, ParseErrorView>, PState)) -> bool {
    o.0 is Err ==> o.1.errors.len() > 0 && o.1.errors.last() == o.0->Err_0
}

proof fn lemma_fresh_concat(a: Seq<usize>, b: Seq<usize>, lo: int, mid: int, hi: int)
    requires
        fresh(a, lo, mid),
        fresh(b, mid, hi),
        lo <= mid <= hi,
    ensures
        fresh(a + b, lo, hi),
{
    let c = a + b;
    assert forall|i: int| #![trigger c[i]] 0 <= i < c.len() implies lo <= c[i] && c[i] < hi by {
        if i < a.len() {
            assert(c[i] == a[i]);
            assert(lo <= a[i] < mid);
        } else {
            assert(c[i] == b[i - a.len()]);
            assert(mid <= b[i - a.len()] < hi);
        }
    }
    assert forall|i: int, j: int| 0 <= i < c.len() && 0 <= j < c.len() && i != j implies c[i] != c[j] by {
        if i < a.len() && j < a.len() {
            assert(c[i] == a[i] && c[j] == a[j]);
        } else if i >= a.len() && j >= a.len() {
            assert(c[i] == b[i - a.len()] && c[j] == b[j - a.len()]);
        } else if i < a.len() {
            assert(c[i] == a[i] && c[j] == b[j - a.len()]);
        } else {
            assert(c[i] == b[i - a.len()] && c[j] == a[j]);
        }
    }
}

proof fn lemma_fresh_widen(a: Seq<usize>, lo: int, hi: int, lo2: int, hi2: int)
    requires
        fresh(a, lo, hi),
        lo2 <= lo,
        hi <= hi2,
    ensures
        fresh(a, lo2, hi2),
{
}

proof fn lemma_fresh_one(id: usize)
    ensures
        fresh(seq![id], id as int, id + 1),
{
}

proof fn lemma_fresh_empty(lo: int, hi: int)
    ensures
        fresh(Seq::<usize>::empty(), lo, hi),
{
}

/// Ids of the result of an expression parser, when it succeeds.
pub open spec fn ok_fresh(o: ExprOutcome, lo: int) -> bool {
    o.0 is Ok ==> fresh(expr_ids(o.0->Ok_0), lo, o.1.ids as int)
}

proof fn lemma_primary(t: Seq<Token>, s: PState)
    requires
        tokens_ok(t),
        room(t, s),
    ensures
        counted(s, parse_primary(t, s).1),
        appended(s, parse_primary(t, s).1),
        err_last(parse_primary(t, s)),
        parse_primary(t, s).1.pos < t.len(),
        ok_fresh(parse_primary(t, s), s.ids as int),
    decreases t.len() - s.pos, 3nat, 0nat,
{
    match tok(t, s).token_type {
        TokenType::LeftParen => {
            lemma_assignment(t, adv(s));
        },
        TokenType::Identifier(_) => {
            lemma_fresh_one(s.ids);
        },
        TokenType::This => {
            lemma_fresh_one(s.ids);
        },
        TokenType::Super => {
            lemma_fresh_one(s.ids);
        },
        _ => {},
    }
}

proof fn lemma_call(t: Seq<Token>, s: PState)
    requires
        tokens_ok(t),
        room(t, s),
    ensures
        counted(s, parse_call(t, s).1),
        appended(s, parse_call(t, s).1),
        err_last(parse_call(t, s)),
        parse_call(t, s).1.pos < t.len(),
        ok_fresh(parse_call(t, s), s.ids as int),
    decreases t.len() - s.pos, 4nat, 0nat,
{
    lemma_primary(t, s);
    let (r, s1) = parse_primary(t, s);
    if r is Ok && kept(t, s, s1) {
        lemma_call_loop(t, s1, r->Ok_0, s.ids as int);
    }
}

proof fn lemma_call_loop(t: Seq<Token>, s: PState, callee: ExprView, lo: int)
    requires
        tokens_ok(t),
        room(t, s),
        lo <= s.ids,
        fresh(expr_ids(callee), lo, s.ids as int),
    ensures
        counted(s, call_loop(t, s, callee).1),
        appended(s, call_loop(t, s, callee).1),
        err_last(call_loop(t, s, callee)),
        call_loop(t, s, callee).1.pos < t.len(),
        ok_fresh(call_loop(t, s, callee), lo),
    decreases t.len() - s.pos, 1nat, 0nat,
{
    if check(t, s, crate::token::TokenKind::LeftParen) {
        lemma_fresh_empty(s.ids as int, s.ids as int);
        lemma_args(t, adv(s), Seq::empty(), s.ids as int);
        let (r, s2) = args_loop(t, adv(s), Seq::empty());
        if r is Ok && check(t, s2, crate::token::TokenKind::RightParen) {
            let args = r->Ok_0;
            let c2 = ExprView::Call(Box::new(callee), args, tok(t, s2));
            lemma_fresh_concat(expr_ids(callee), args_ids(args), lo, s.ids as int, s2.ids as int);
            assert(expr_ids(c2) == expr_ids(callee) + args_ids(args));
            let s3 = adv(s2);
            if moved(t, s, s3) {
                lemma_call_loop(t, s3, c2, lo);
            }
        }
    } else if check(t, s, crate::token::TokenKind::Dot) {
        let s1 = adv(s);
        if kind(t, s1) is Identifier {
            let c2 = ExprView::Get(Box::new(callee), tok(t, s1));
            assert(expr_ids(c2) == expr_ids(callee));
            let s2 = adv(s1);
            if moved(t, s, s2) {
                lemma_call_loop(t, s2, c2, lo);
            }
        }
    }
}

proof fn lemma_args(t: Seq<Token>, s: PState, args: Seq<ExprView>, lo: int)
    requires
        tokens_ok(t),
        room(t, s),
        lo <= s.ids,
        fresh(args_ids(args), lo, s.ids as int),
    ensures
        counted(s, args_loop(t, s, args).1),
        appended(s, args_loop(t, s, args).1),
        args_loop(t, s, args).0 is Err ==> args_loop(t, s, args).1.errors.len() > 0 && args_loop(t, s, args).1.errors.last() == args_loop(t, s, args).0->Err_0,
        args_loop(t, s, args).1.pos < t.len(),
        args_loop(t, s, args).0 is Ok ==> fresh(args_ids(args_loop(t, s, args).0->Ok_0), lo, args_loop(t, s, args).1.ids as int),
    decreases t.len() - s.pos, 13nat, 0nat,
{
    if !check(t, s, crate::token::TokenKind::RightParen) {
        let s1 = if args.len() > 255 {
            report(t, s, "Não é possível ter mais de 255 argumentos."@)
        } else {
            s
        };
        lemma_assignment(t, s1);
        let (r, s2) = parse_assignment(t, s1);
        if r is Ok {
            let x = r->Ok_0;
            let a2 = args.push(x);
            assert(a2.drop_last() =~= args);
            lemma_fresh_concat(args_ids(args), expr_ids(x), lo, s.ids as int, s2.ids as int);
            if check(t, s2, crate::token::TokenKind::Comma) {
                let s3 = adv(s2);
                if moved(t, s, s3) {
                    lemma_args(t, s3, a2, lo);
                }
            }
        }
    }
}

proof fn lemma_unary(t: Seq<Token>, s: PState)
    requires
        tokens_ok(t),
        room(t, s),
    ensures
        counted(s, parse_unary(t, s).1),
        appended(s, parse_unary(t, s).1),
        err_last(parse_unary(t, s)),
        parse_unary(t, s).1.pos < t.len(),
        ok_fresh(parse_unary(t, s), s.ids as int),
    decreases t.len() - s.pos, 5nat, 0nat,
{
    if kind(t, s) is Bang || kind(t, s) is Minus {
        lemma_unary(t, adv(s));
    } else {
        lemma_call(t, s);
    }
}

proof fn lemma_operand(t: Seq<Token>, s: PState, level: Level)
    requires
        tokens_ok(t),
        room(t, s),
        is_binary_level(level),
    ensures
        ({
            let o = match level {
                Level::Factor => parse_unary(t, s),
                Level::Term => parse_binary(t, s, Level::Factor),
                Level::Comparison => parse_binary(t, s, Level::Term),
                _ => parse_binary(t, s, Level::Comparison),
            };
            counted(s, o.1) && o.1.pos < t.len() && ok_fresh(o, s.ids as int) && appended(s, o.1) && err_last(o)
        }),
    decreases t.len() - s.pos, rank(level), 0nat,
{
    match level {
        Level::Factor => lemma_unary(t, s),
        Level::Term => lemma_binary(t, s, Level::Factor),
        Level::Comparison => lemma_binary(t, s, Level::Term),
        _ => lemma_binary(t, s, Level::Comparison),
    }
}

proof fn lemma_binary(t: Seq<Token>, s: PState, level: Level)
    requires
        tokens_ok(t),
        room(t, s),
        is_binary_level(level),
    ensures
        counted(s, parse_binary(t, s, level).1),
        appended(s, parse_binary(t, s, level).1),
        err_last(parse_binary(t, s, level)),
        parse_binary(t, s, level).1.pos < t.len(),
        ok_fresh(parse_binary(t, s, level), s.ids as int),
    decreases t.len() - s.pos, rank(level), 1nat,
{
    lemma_operand(t, s, level);
    let (r, s1) = match level {
        Level::Factor => parse_unary(t, s),
        Level::Term => parse_binary(t, s, Level::Factor),
        Level::Comparison => parse_binary(t, s, Level::Term),
        _ => parse_binary(t, s, Level::Comparison),
    };
    if r is Ok && kept(t, s, s1) {
        lemma_binary_loop(t, s1, r->Ok_0, level, s.ids as int);
    }
}

proof fn lemma_binary_loop(t: Seq<Token>, s: PState, left: ExprView, level: Level, lo: int)
    requires
        tokens_ok(t),
        room(t, s),
        is_binary_level(level),
        lo <= s.ids,
        fresh(expr_ids(left), lo, s.ids as int),
    ensures
        counted(s, binary_loop(t, s, left, level).1),
        appended(s, binary_loop(t, s, left, level).1),
        err_last(binary_loop(t, s, left, level)),
        binary_loop(t, s, left, level).1.pos < t.len(),
        ok_fresh(binary_loop(t, s, left, level), lo),
    decreases t.len() - s.pos, 1nat, 0nat,
{
    if let Some(op) = binary_op(level, kind(t, s)) {
        let s1 = adv(s);
        lemma_operand(t, s1, level);
        let (r, s2) = match level {
            Level::Factor => parse_unary(t, s1),
            Level::Term => parse_binary(t, s1, Level::Factor),
            Level::Comparison => parse_binary(t, s1, Level::Term),
            _ => parse_binary(t, s1, Level::Comparison),
        };
        if r is Ok {
            let right = r->Ok_0;
            let l2 = ExprView::Binary(Box::new(left), op, tok(t, s).line, Box::new(right));
            lemma_fresh_concat(expr_ids(left), expr_ids(right), lo, s.ids as int, s2.ids as int);
            if moved(t, s, s2) {
                lemma_binary_loop(t, s2, l2, level, lo);
            }
        }
    }
}

proof fn lemma_logical(t: Seq<Token>, s: PState, level: Level)
    requires
        tokens_ok(t),
        room(t, s),
        level is And || level is Or,
    ensures
        counted(s, parse_logical(t, s, level).1),
        appended(s, parse_logical(t, s, level).1),
        err_last(parse_logical(t, s, level)),
        parse_logical(t, s, level).1.pos < t.len(),
        ok_fresh(parse_logical(t, s, level), s.ids as int),
    decreases t.len() - s.pos, rank(level), 1nat,
{
    if level is And {
        lemma_binary(t, s, Level::Equality);
    } else {
        lemma_logical(t, s, Level::And);
    }
    let (r, s1) = if level is And {
        parse_binary(t, s, Level::Equality)
    } else {
        parse_logical(t, s, Level::And)
    };
    if r is Ok && kept(t, s, s1) {
        lemma_logical_loop(t, s1, r->Ok_0, level, s.ids as int);
    }
}

proof fn lemma_logical_loop(t: Seq<Token>, s: PState, left: ExprView, level: Level, lo: int)
    requires
        tokens_ok(t),
        room(t, s),
        level is And || level is Or,
        lo <= s.ids,
        fresh(expr_ids(left), lo, s.ids as int),
    ensures
        counted(s, logical_loop(t, s, left, level).1),
        appended(s, logical_loop(t, s, left, level).1),
        err_last(logical_loop(t, s, left, level)),
        logical_loop(t, s, left, level).1.pos < t.len(),
        ok_fresh(logical_loop(t, s, left, level), lo),
    decreases t.len() - s.pos, 1nat, 0nat,
{
    if let Some(op) = logical_op(level, kind(t, s)) {
        let s1 = adv(s);
        if level is And {
            lemma_binary(t, s1, Level::Equality);
        } else {
            lemma_logical(t, s1, Level::And);
        }
        let (r, s2) = if level is And {
            parse_binary(t, s1, Level::Equality)
        } else {
            parse_logical(t, s1, Level::And)
        };
        if r is Ok {
            let right = r->Ok_0;
            let l2 = ExprView::Logical(Box::new(left), op, tok(t, s).line, Box::new(right));
            lemma_fresh_concat(expr_ids(left), expr_ids(right), lo, s.ids as int, s2.ids as int);
            if moved(t, s, s2) {
                lemma_logical_loop(t, s2, l2, level, lo);
            }
        }
    }
}

proof fn lemma_assignment(t: Seq<Token>, s: PState)
    requires
        tokens_ok(t),
        room(t, s),
    ensures
        counted(s, parse_assignment(t, s).1),
        appended(s, parse_assignment(t, s).1),
        err_last(parse_assignment(t, s)),
        parse_assignment(t, s).1.pos < t.len(),
        ok_fresh(parse_assignment(t, s), s.ids as int),
    decreases t.len() - s.pos, 12nat, 0nat,
{
    lemma_logical(t, s, Level::Or);
    let (r, s1) = parse_logical(t, s, Level::Or);
    if r is Ok && kept(t, s, s1) && check(t, s1, crate::token::TokenKind::Equal) {
        let s2 = adv(s1);
        match r->Ok_0 {
            ExprView::Variable(name, line, _) => {
                lemma_assignment(t, take_id(s2));
                let (rv, s3) = parse_assignment(t, take_id(s2));
                if rv is Ok {
                    let v = rv->Ok_0;
                    lemma_fresh_one(s2.ids);
                    lemma_fresh_concat(seq![s2.ids], expr_ids(v), s2.ids as int, s2.ids + 1, s3.ids as int);
                    lemma_fresh_widen(seq![s2.ids] + expr_ids(v), s2.ids as int, s3.ids as int, s.ids as int, s3.ids as int);
                }
            },
            ExprView::Get(obj, name) => {
                lemma_assignment(t, s2);
                let (rv, s3) = parse_assignment(t, s2);
                if rv is Ok {
                    let v = rv->Ok_0;
                    lemma_fresh_concat(expr_ids(*obj), expr_ids(v), s.ids as int, s2.ids as int, s3.ids as int);
                }
            },
            _ => {},
        }
    }
}

/// The identifiers of an optional expression.
pub open spec fn opt_ids(e: Option<ExprView>) -> Seq<usize> {
    match e {
        Some(x) => expr_ids(x),
        None => Seq::empty(),
    }
}

/// The identifiers carried by the expressions of a statement, in the order
/// they appear in it.
pub open spec fn stmt_ids(x: StmtView) -> Seq<usize>
    decreases x,
{
    match x {
        StmtView::Print(e) => expr_ids(e),
        StmtView::ExprStatement(e) => expr_ids(e),
        StmtView::Var(_, init, _) => opt_ids(init),
        StmtView::Block(body) => stmts_ids(body),
        StmtView::If(c, th, el) => {
            let rest = match el {
                Some(eb) => stmt_ids(*eb),
                None => Seq::empty(),
            };
            expr_ids(c) + stmt_ids(*th) + rest
        },
        StmtView::While(c, b) => expr_ids(c) + stmt_ids(*b),
        StmtView::Function(_, _, body, _) => stmts_ids(body),
        StmtView::Return(_, v) => opt_ids(v),
        StmtView::Class(_, _, sup, body) => opt_ids(sup) + stmts_ids(body),
    }
}

/// The identifiers carried by a list of statements, in order.
pub open spec fn stmts_ids(xs: Seq<StmtView>) -> Seq<usize>
    decreases xs,
{
    if xs.len() == 0 {
        Seq::empty()
    } else {
        stmts_ids(xs.drop_last()) + stmt_ids(xs.last())
    }
}

proof fn lemma_fresh_disjoint(a: Seq<usize>, b: Seq<usize>, l1: int, h1: int, l2: int, h2: int, lo: int, hi: int)
    requires
        fresh(a, l1, h1),
        fresh(b, l2, h2),
        h1 <= l2 || h2 <= l1,
        lo <= l1,
        lo <= l2,
        h1 <= hi,
        h2 <= hi,
    ensures
        fresh(a + b, lo, hi),
{
    let c = a + b;
    assert forall|i: int| #![trigger c[i]] 0 <= i < c.len() implies lo <= c[i] && c[i] < hi by {
        if i < a.len() {
            assert(c[i] == a[i]);
            assert(l1 <= a[i] < h1);
        } else {
            assert(c[i] == b[i - a.len()]);
            assert(l2 <= b[i - a.len()] < h2);
        }
    }
    assert forall|i: int, j: int| 0 <= i < c.len() && 0 <= j < c.len() && i != j implies c[i] != c[j] by {
        if i < a.len() && j < a.len() {
            assert(c[i] == a[i] && c[j] == a[j]);
        } else if i >= a.len() && j >= a.len() {
            assert(c[i] == b[i - a.len()] && c[j] == b[j - a.len()]);
        } else if i < a.len() {
            assert(c[i] == a[i] && c[j] == b[j - a.len()]);
            assert(l1 <= a[i] < h1);
            assert(l2 <= b[j - a.len()] < h2);
        } else {
            assert(c[i] == b[i - a.len()] && c[j] == a[j]);
            assert(l1 <= a[j] < h1);
            assert(l2 <= b[i - a.len()] < h2);
        }
    }
}

/// Ids of the statement a statement parser yields, when it yields one.
pub open spec fn st_fresh(o: MaybeStmt, lo: int) -> bool {
    o.0 is Some ==> fresh(stmt_ids(o.0->Some_0), lo, o.1.ids as int)
}

pub open spec fn st_ok_fresh(o: StmtOutcome, lo: int) -> bool {
    o.0 is Ok ==> fresh(stmt_ids(o.0->Ok_0), lo, o.1.ids as int)
}

proof fn lemma_sync_loop(t: Seq<Token>, s: PState)
    requires
        tokens_ok(t),
        0 <= s.pos < t.len(),
    ensures
        sync_loop(t, s).ids == s.ids,
        sync_loop(t, s).errors == s.errors,
        s.pos <= sync_loop(t, s).pos < t.len(),
    decreases t.len() - s.pos,
{
    if !at_end(t, s) && !(kind(t, s) is If || kind(t, s) is While || kind(t, s) is For || kind(t, s) is Return
        || kind(t, s) is Var || kind(t, s) is Print) {
        lemma_sync_loop(t, adv(s));
    }
}

proof fn lemma_synchronize(t: Seq<Token>, s: PState)
    requires
        tokens_ok(t),
        0 <= s.pos < t.len(),
    ensures
        synchronize(t, s).ids == s.ids,
        synchronize(t, s).errors == s.errors,
        s.pos <= synchronize(t, s).pos < t.len(),
{
    if !at_end(t, s) {
        lemma_sync_loop(t, adv(s));
    }
}

proof fn lemma_synchronize_all(t: Seq<Token>)
    requires
        tokens_ok(t),
    ensures
        forall|s: PState| 0 <= s.pos < t.len() ==> (#[trigger] synchronize(t, s)).ids == s.ids
            && synchronize(t, s).errors == s.errors && s.pos <= synchronize(t, s).pos < t.len(),
{
    assert forall|s: PState| 0 <= s.pos < t.len() implies (#[trigger] synchronize(t, s)).ids == s.ids
        && synchronize(t, s).errors == s.errors && s.pos <= synchronize(t, s).pos < t.len() by {
        lemma_synchronize(t, s);
    }
}

proof fn lemma_params(t: Seq<Token>, s: PState, params: Seq<Seq<char>>)
    requires
        tokens_ok(t),
        0 <= s.pos,
    ensures
        param_loop(t, s, params).1.ids == s.ids,
        appended(s, param_loop(t, s, params).1),
        s.pos <= param_loop(t, s, params).1.pos,
        param_loop(t, s, params).0 is Some && param_loop(t, s, params).1.pos < t.len()
            ==> check(t, param_loop(t, s, params).1, crate::token::TokenKind::RightParen),
        s.pos < t.len() ==> param_loop(t, s, params).1.pos < t.len(),
    decreases t.len() + 2 - s.pos,
{
    if 0 <= s.pos < t.len() && !check(t, s, crate::token::TokenKind::RightParen) {
        if let TokenType::Identifier(n) = tok(t, s).token_type {
            let s1 = adv(s);
            if check(t, s1, crate::token::TokenKind::Comma) {
                lemma_params(t, adv(s1), params.push(n@));
            } else if check(t, s1, crate::token::TokenKind::RightParen) {
                lemma_params(t, s1, params.push(n@));
            }
        }
    }
}

proof fn lemma_print(t: Seq<Token>, s: PState)
    requires
        tokens_ok(t),
        room(t, s),
        !at_end(t, s),
    ensures
        counted(s, print_stmt(t, s).1),
        appended(s, print_stmt(t, s).1),
        err_last(print_stmt(t, s)),
        print_stmt(t, s).1.pos < t.len(),
        st_ok_fresh(print_stmt(t, s), s.ids as int),
{
    lemma_assignment(t, adv(s));
}

proof fn lemma_expr_stmt(t: Seq<Token>, s: PState)
    requires
        tokens_ok(t),
        room(t, s),
    ensures
        counted(s, expr_stmt(t, s).1),
        appended(s, expr_stmt(t, s).1),
        err_last(expr_stmt(t, s)),
        expr_stmt(t, s).1.pos < t.len(),
        st_ok_fresh(expr_stmt(t, s), s.ids as int),
{
    lemma_assignment(t, s);
}

proof fn lemma_var(t: Seq<Token>, s: PState)
    requires
        tokens_ok(t),
        room(t, s),
        !at_end(t, s),
    ensures
        counted(s, var_stmt(t, s).1),
        appended(s, var_stmt(t, s).1),
        err_last(var_stmt(t, s)),
        var_stmt(t, s).1.pos < t.len(),
        st_ok_fresh(var_stmt(t, s), s.ids as int),
{
    let s1 = adv(s);
    if tok(t, s1).token_type is Identifier {
        let s2 = adv(s1);
        if kind(t, s2) is Equal {
            lemma_assignment(t, adv(s2));
        } else {
            lemma_fresh_empty(s.ids as int, s.ids as int);
        }
    }
}

proof fn lemma_return(t: Seq<Token>, s: PState)
    requires
        tokens_ok(t),
        room(t, s),
        !at_end(t, s),
    ensures
        counted(s, return_stmt(t, s).1),
        appended(s, return_stmt(t, s).1),
        return_stmt(t, s).1.pos < t.len(),
        st_fresh(return_stmt(t, s), s.ids as int),
{
    let s1 = adv(s);
    if check(t, s1, crate::token::TokenKind::Semicolon) {
        lemma_fresh_empty(s.ids as int, s.ids as int);
    } else {
        lemma_assignment(t, s1);
    }
}

proof fn lemma_statement(t: Seq<Token>, s: PState)
    requires
        tokens_ok(t),
        room(t, s),
    ensures
        counted(s, statement(t, s).1),
        appended(s, statement(t, s).1),
        statement(t, s).1.pos < t.len(),
        st_fresh(statement(t, s), s.ids as int),
    decreases t.len() - s.pos, 30nat,
{
    match kind(t, s) {
        crate::token::TokenKind::Print => {
            lemma_print(t, s);
            lemma_synchronize(t, print_stmt(t, s).1);
        },
        crate::token::TokenKind::Var => {
            lemma_var(t, s);
            lemma_synchronize(t, var_stmt(t, s).1);
        },
        crate::token::TokenKind::LeftBrace => lemma_block(t, s),
        crate::token::TokenKind::If => lemma_if(t, s),
        crate::token::TokenKind::While => lemma_while(t, s),
        crate::token::TokenKind::For => lemma_for(t, s),
        crate::token::TokenKind::Function => lemma_function(t, s),
        crate::token::TokenKind::Return => lemma_return(t, s),
        _ => {
            lemma_expr_stmt(t, s);
            lemma_synchronize(t, expr_stmt(t, s).1);
        },
    }
}

proof fn lemma_block_loop(t: Seq<Token>, s: PState, body: Seq<StmtView>, lo: int)
    requires
        tokens_ok(t),
        room(t, s),
        lo <= s.ids,
        fresh(stmts_ids(body), lo, s.ids as int),
    ensures
        counted(s, block_loop(t, s, body).1),
        appended(s, block_loop(t, s, body).1),
        block_loop(t, s, body).1.pos < t.len(),
        block_loop(t, s, body).0 is Some ==> fresh(
            stmts_ids(block_loop(t, s, body).0->Some_0),
            lo,
            block_loop(t, s, body).1.ids as int,
        ),
    decreases t.len() - s.pos, 31nat,
{
    if !(check(t, s, crate::token::TokenKind::RightBrace) || at_end(t, s)) {
        lemma_statement(t, s);
        let (r, s1) = statement(t, s);
        if let Some(x) = r {
            let b2 = body.push(x);
            assert(b2.drop_last() =~= body);
            lemma_fresh_concat(stmts_ids(body), stmt_ids(x), lo, s.ids as int, s1.ids as int);
            if moved(t, s, s1) {
                lemma_block_loop(t, s1, b2, lo);
            }
        }
    }
}

proof fn lemma_block(t: Seq<Token>, s: PState)
    requires
        tokens_ok(t),
        room(t, s),
    ensures
        counted(s, block_stmt(t, s).1),
        appended(s, block_stmt(t, s).1),
        block_stmt(t, s).1.pos < t.len(),
        st_fresh(block_stmt(t, s), s.ids as int),
        block_stmt(t, s).0 matches Some(b) ==> b is Block,
    decreases t.len() - s.pos, 29nat,
{
    if s.pos + 1 < t.len() {
        lemma_fresh_empty(s.ids as int, s.ids as int);
        lemma_block_loop(t, adv(s), Seq::empty(), s.ids as int);
    }
}

proof fn lemma_if(t: Seq<Token>, s: PState)
    requires
        tokens_ok(t),
        room(t, s),
        !at_end(t, s),
    ensures
        counted(s, if_stmt(t, s).1),
        appended(s, if_stmt(t, s).1),
        if_stmt(t, s).1.pos < t.len(),
        st_fresh(if_stmt(t, s), s.ids as int),
    decreases t.len() - s.pos, 29nat,
{
    lemma_synchronize_all(t);
    let s1 = adv(s);
    if !check(t, s1, crate::token::TokenKind::LeftParen) {
        lemma_synchronize(t, s1);
    } else {
        lemma_assignment(t, adv(s1));
        let (r, s2) = parse_assignment(t, adv(s1));
        lemma_synchronize(t, s2);
        if r is Ok && check(t, s2, crate::token::TokenKind::RightParen) && kept(t, s, s2) {
            let c = r->Ok_0;
            lemma_statement(t, adv(s2));
            let (th, s3) = statement(t, adv(s2));
            if let Some(tb) = th {
                if check(t, s3, crate::token::TokenKind::Else) && kept(t, s, s3) {
                    lemma_statement(t, adv(s3));
                    let (el, s4) = statement(t, adv(s3));
                    if let Some(eb) = el {
                        lemma_fresh_concat(expr_ids(c), stmt_ids(tb), s.ids as int, s2.ids as int, s3.ids as int);
                        lemma_fresh_concat(expr_ids(c) + stmt_ids(tb), stmt_ids(eb), s.ids as int, s3.ids as int, s4.ids as int);
                        assert(stmt_ids(StmtView::If(c, Box::new(tb), Some(Box::new(eb)))) == expr_ids(c) + stmt_ids(tb) + stmt_ids(eb));
                    }
                } else {
                    lemma_fresh_concat(expr_ids(c), stmt_ids(tb), s.ids as int, s2.ids as int, s3.ids as int);
                    assert(expr_ids(c) + stmt_ids(tb) + Seq::<usize>::empty() =~= expr_ids(c) + stmt_ids(tb));
                }
            }
        }
    }
}

proof fn lemma_while(t: Seq<Token>, s: PState)
    requires
        tokens_ok(t),
        room(t, s),
        !at_end(t, s),
    ensures
        counted(s, while_stmt(t, s).1),
        appended(s, while_stmt(t, s).1),
        while_stmt(t, s).1.pos < t.len(),
        st_fresh(while_stmt(t, s), s.ids as int),
    decreases t.len() - s.pos, 29nat,
{
    lemma_synchronize_all(t);
    let s1 = adv(s);
    if !check(t, s1, crate::token::TokenKind::LeftParen) {
        lemma_synchronize(t, s1);
    } else {
        lemma_assignment(t, adv(s1));
        let (r, s2) = parse_assignment(t, adv(s1));
        lemma_synchronize(t, s2);
        if r is Ok && check(t, s2, crate::token::TokenKind::RightParen) && kept(t, s, s2) {
            lemma_statement(t, adv(s2));
            let (b, s3) = statement(t, adv(s2));
            if let Some(body) = b {
                lemma_fresh_concat(expr_ids(r->Ok_0), stmt_ids(body), s.ids as int, s2.ids as int, s3.ids as int);
            }
        }
    }
}

proof fn lemma_for_init(t: Seq<Token>, s: PState)
    requires
        tokens_ok(t),
        room(t, s),
    ensures
        counted(s, for_init(t, s).1),
        appended(s, for_init(t, s).1),
        for_init(t, s).1.pos < t.len(),
        for_init(t, s).0 matches Ok(i) ==> fresh(opt_stmt_ids(i), s.ids as int, for_init(t, s).1.ids as int),
    decreases t.len() - s.pos, 29nat,
{
    if kind(t, s) is Var {
        lemma_var(t, s);
        lemma_synchronize(t, var_stmt(t, s).1);
    } else if kind(t, s) is Semicolon {
        lemma_fresh_empty(s.ids as int, s.ids as int);
    } else {
        lemma_expr_stmt(t, s);
        lemma_synchronize(t, expr_stmt(t, s).1);
    }
}

/// The identifiers of an optional statement.
pub open spec fn opt_stmt_ids(x: Option<StmtView>) -> Seq<usize> {
    match x {
        Some(y) => stmt_ids(y),
        None => Seq::empty(),
    }
}

proof fn lemma_desugar_ids(init: Option<StmtView>, cond: ExprView, inc: ExprView, body: StmtView, a: int, b: int, c: int, d: int, e: int)
    requires
        a <= b <= c <= d <= e,
        fresh(opt_stmt_ids(init), a, b),
        fresh(expr_ids(cond), b, c),
        fresh(expr_ids(inc), c, d),
        fresh(stmt_ids(body), d, e),
    ensures
        fresh(stmt_ids(desugar_for(init, cond, inc, body)), a, e),
{
    let inner = seq![body, StmtView::ExprStatement(inc)];
    assert(inner.drop_last() =~= seq![body]);
    assert(seq![body].drop_last() =~= Seq::<StmtView>::empty());
    assert(stmts_ids(seq![body]) =~= stmt_ids(body)) by {
        assert(stmts_ids(Seq::<StmtView>::empty()) =~= Seq::<usize>::empty());
    }
    assert(stmt_ids(StmtView::ExprStatement(inc)) == expr_ids(inc));
    assert(stmts_ids(inner) =~= stmts_ids(seq![body]) + stmt_ids(StmtView::ExprStatement(inc)));
    assert(stmts_ids(inner) =~= stmt_ids(body) + expr_ids(inc));
    lemma_fresh_disjoint(stmt_ids(body), expr_ids(inc), d, e, c, d, c, e);
    let looped = StmtView::While(cond, Box::new(StmtView::Block(inner)));
    assert(stmt_ids(StmtView::Block(inner)) == stmts_ids(inner));
    assert(stmt_ids(looped) == expr_ids(cond) + stmt_ids(StmtView::Block(inner)));
    lemma_fresh_concat(expr_ids(cond), stmts_ids(inner), b, c, e);
    match init {
        Some(i) => {
            let outer = seq![i, looped];
            assert(outer.drop_last() =~= seq![i]);
            assert(seq![i].drop_last() =~= Seq::<StmtView>::empty());
            assert(stmts_ids(seq![i]) =~= stmt_ids(i)) by {
                assert(stmts_ids(Seq::<StmtView>::empty()) =~= Seq::<usize>::empty());
            }
            assert(stmts_ids(outer) =~= stmts_ids(seq![i]) + stmt_ids(looped));
            lemma_fresh_concat(stmt_ids(i), stmt_ids(looped), a, b, e);
        },
        None => {
            let outer = seq![looped];
            assert(outer.drop_last() =~= Seq::<StmtView>::empty());
            assert(stmts_ids(Seq::<StmtView>::empty()) =~= Seq::<usize>::empty());
            assert(stmts_ids(outer) =~= stmts_ids(Seq::<StmtView>::empty()) + stmt_ids(looped));
            lemma_fresh_widen(stmt_ids(looped), b, e, a, e);
        },
    }
}

proof fn lemma_for(t: Seq<Token>, s: PState)
    requires
        tokens_ok(t),
        room(t, s),
        !at_end(t, s),
    ensures
        counted(s, for_stmt(t, s).1),
        appended(s, for_stmt(t, s).1),
        for_stmt(t, s).1.pos < t.len(),
        st_fresh(for_stmt(t, s), s.ids as int),
    decreases t.len() - s.pos, 29nat,
{
    lemma_synchronize_all(t);
    let s1 = adv(s);
    if !check(t, s1, crate::token::TokenKind::LeftParen) {
        lemma_synchronize(t, s1);
    } else {
        lemma_for_init(t, adv(s1));
        let (ri, s3) = for_init(t, adv(s1));
        if ri is Ok && moved(t, s, s3) {
            lemma_assignment(t, s3);
            let (rc, s4) = parse_assignment(t, s3);
            lemma_synchronize(t, s4);
            if rc is Ok && check(t, s4, crate::token::TokenKind::Semicolon) {
                lemma_assignment(t, adv(s4));
                let (rn, s6) = parse_assignment(t, adv(s4));
                lemma_synchronize(t, s6);
                if rn is Ok && check(t, s6, crate::token::TokenKind::RightParen) && kept(t, s, s6) {
                    lemma_statement(t, adv(s6));
                    let (rb, s7) = statement(t, adv(s6));
                    if let Some(body) = rb {
                        lemma_desugar_ids(
                            ri->Ok_0,
                            rc->Ok_0,
                            rn->Ok_0,
                            body,
                            s.ids as int,
                            s3.ids as int,
                            s4.ids as int,
                            s6.ids as int,
                            s7.ids as int,
                        );
                    }
                }
            }
        }
    }
}

proof fn lemma_function(t: Seq<Token>, s: PState)
    requires
        tokens_ok(t),
        room(t, s),
        !at_end(t, s),
    ensures
        counted(s, function_stmt(t, s).1),
        appended(s, function_stmt(t, s).1),
        function_stmt(t, s).1.pos < t.len(),
        st_fresh(function_stmt(t, s), s.ids as int),
    decreases t.len() - s.pos, 29nat,
{
    let s1 = adv(s);
    if tok(t, s1).token_type is Identifier {
        let s2 = adv(s1);
        if kind(t, s2) is LeftParen {
            lemma_params(t, adv(s2), Seq::empty());
            let (rp, s3) = param_loop(t, adv(s2), Seq::empty());
            if rp is Some && kept(t, s, s3) {
                lemma_block(t, adv(s3));
            }
        }
    }
}

proof fn lemma_parse_all(t: Seq<Token>, s: PState, stmts: Seq<StmtView>, lo: int)
    requires
        tokens_ok(t),
        0 <= s.pos,
        s.ids + (t.len() - s.pos) <= usize::MAX,
        lo <= s.ids,
        fresh(stmts_ids(stmts), lo, s.ids as int),
    ensures
        counted(s, parse_all(t, s, stmts).1),
        appended(s, parse_all(t, s, stmts).1),
        fresh(stmts_ids(parse_all(t, s, stmts).0), lo, parse_all(t, s, stmts).1.ids as int),
    decreases t.len() - s.pos,
{
    if 0 <= s.pos < t.len() && !at_end(t, s) {
        lemma_statement(t, s);
        let (r, s1) = statement(t, s);
        let st2 = match r {
            Some(x) => stmts.push(x),
            None => stmts,
        };
        if let Some(x) = r {
            assert(st2.drop_last() =~= stmts);
            lemma_fresh_concat(stmts_ids(stmts), stmt_ids(x), lo, s.ids as int, s1.ids as int);
        } else {
            lemma_fresh_widen(stmts_ids(stmts), lo, s.ids as int, lo, s1.ids as int);
        }
        if moved(t, s, s1) {
            lemma_parse_all(t, s1, st2, lo);
        }
    }
}

/// Law: every identifier in the statements parsed from a sequence of
/// tokens (ending with the end-of-file token) by a fresh parser is
/// distinct from every other, and below the counter the parser ends with.
pub proof fn law_parsed_ids_distinct(t: Seq<Token>)
    requires
        tokens_ok(t),
        t.len() <= usize::MAX,
    ensures
        ({
            let (stmts, end) = parse_all(t, PState { pos: 0, errors: Seq::empty(), ids: 0, overrun: false }, Seq::empty());
            &&& stmts_ids(stmts).no_duplicates()
            &&& forall|i: int| 0 <= i < stmts_ids(stmts).len() ==> #[trigger] stmts_ids(stmts)[i] < end.ids
        }),
{
    let s = PState { pos: 0, errors: Seq::empty(), ids: 0, overrun: false };
    assert(stmts_ids(Seq::<StmtView>::empty()) =~= Seq::<usize>::empty());
    lemma_parse_all(t, s, Seq::empty(), 0);
}

/// Law: the identifiers an expression is parsed with are all distinct, and
/// lie between the counter's value before and after the parse; the counter
/// goes up by at most one per token taken, so it never wraps around while
/// it has a value to spare for every token left.
pub proof fn law_expression_ids_fresh(t: Seq<Token>, s: PState)
    requires
        tokens_ok(t),
        room(t, s),
    ensures
        counted(s, parse_assignment(t, s).1),
        parse_assignment(t, s).1.pos < t.len(),
        ok_fresh(parse_assignment(t, s), s.ids as int),
{
    lemma_assignment(t, s);
}

/// Law: parsing an expression only adds errors after those already
/// reported, and an expression that fails to parse fails with the last
/// error reported. (Stated for a counter with a value to spare for every
/// token left, as every parser started by `new` has.)
pub proof fn law_expression_errors_appended(t: Seq<Token>, s: PState)
    requires
        tokens_ok(t),
        room(t, s),
    ensures
        appended(s, parse_assignment(t, s).1),
        err_last(parse_assignment(t, s)),
{
    lemma_assignment(t, s);
}

/// Law: parsing statements to the end of the tokens only adds errors after
/// those already reported. (Stated for a counter with a value to spare for
/// every token left, as every parser started by `new` has.)
pub proof fn law_parse_errors_appended(t: Seq<Token>, s: PState)
    requires
        tokens_ok(t),
        0 <= s.pos,
        s.ids + (t.len() - s.pos) <= usize::MAX,
    ensures
        appended(s, parse_all(t, s, Seq::empty()).1),
{
    assert(stmts_ids(Seq::<StmtView>::empty()) =~= Seq::<usize>::empty());
    lemma_parse_all(t, s, Seq::empty(), s.ids as int);
}

} // verus!
