//! What each parsing function computes, stated over the token sequence and
//! the parser's state: its position, the errors reported so far, the next
//! expression identifier and whether it ran past the last token.
use vstd::prelude::*;

use crate::expr::{ExprView, LiteralView};
use crate::stmt::StmtView;
use crate::text::decimal;
use crate::token::{BinaryOp, LogicalOp, Token, TokenKind, TokenType, UnaryOp};

verus! {

/// The mathematical value of a parse error.
pub struct ParseErrorView {
    pub token: Token,
    pub message: Seq<char>,
}

/// The parser's state.
pub struct PState {
    pub pos: int,
    pub errors: Seq<ParseErrorView>,
    pub ids: usize,
    pub overrun: bool,
}

/// What an expression-parsing function yields.
pub type ExprOutcome = (Result<ExprView, ParseErrorView>, PState);

/// What a statement-parsing function that reports its failure yields.
pub type StmtOutcome = (Result<StmtView, ParseErrorView>, PState);

/// What a statement-parsing function that recovers by itself yields.
pub type MaybeStmt = (Option<StmtView>, PState);

pub open spec fn tok(t: Seq<Token>, s: PState) -> Token {
    t[s.pos]
}

pub open spec fn kind(t: Seq<Token>, s: PState) -> TokenKind {
    t[s.pos].token_type@
}

pub open spec fn at_end(t: Seq<Token>, s: PState) -> bool {
    kind(t, s) is EOF
}

/// Token kinds that `check` treats as the same: identifiers match any
/// identifier, numbers any number, everything else must be equal.
pub open spec fn same_kind(a: TokenKind, b: TokenKind) -> bool {
    match (a, b) {
        (TokenKind::Identifier(_), TokenKind::Identifier(_)) => true,
        (TokenKind::Number(_), TokenKind::Number(_)) => true,
        _ => a == b,
    }
}

pub open spec fn check(t: Seq<Token>, s: PState, k: TokenKind) -> bool {
    !at_end(t, s) && same_kind(kind(t, s), k)
}

pub open spec fn adv(s: PState) -> PState {
    PState { pos: s.pos + 1, ..s }
}

pub open spec fn error_here(t: Seq<Token>, s: PState, msg: Seq<char>) -> ParseErrorView {
    ParseErrorView { token: tok(t, s), message: msg }
}

/// Records an error at the current token.
pub open spec fn report(t: Seq<Token>, s: PState, msg: Seq<char>) -> PState {
    PState { errors: s.errors.push(error_here(t, s, msg)), ..s }
}

/// Records an error at the current token and fails with it.
pub open spec fn fail<X>(t: Seq<Token>, s: PState, msg: Seq<char>) -> (Result<X, ParseErrorView>, PState) {
    (Err(error_here(t, s, msg)), report(t, s, msg))
}

/// The identifier after `id`, wrapping around.
pub open spec fn bump(id: usize) -> usize {
    if id == usize::MAX {
        0
    } else {
        (id + 1) as usize
    }
}

pub open spec fn take_id(s: PState) -> PState {
    PState { ids: bump(s.ids), ..s }
}

/// `prefix`, the current token's text, then `'.`.
pub open spec fn expected(t: Seq<Token>, s: PState, prefix: Seq<char>) -> Seq<char> {
    prefix + tok(t, s).lexeme@ + "'."@
}

pub open spec fn kept(t: Seq<Token>, s0: PState, s1: PState) -> bool {
    s0.pos <= s1.pos < t.len()
}

pub open spec fn moved(t: Seq<Token>, s0: PState, s1: PState) -> bool {
    s0.pos < s1.pos < t.len()
}

/// The precedence levels of expressions, loosest first.
pub enum Level {
    Or,
    And,
    Equality,
    Comparison,
    Term,
    Factor,
}

pub open spec fn rank(l: Level) -> nat {
    match l {
        Level::Or => 11,
        Level::And => 10,
        Level::Equality => 9,
        Level::Comparison => 8,
        Level::Term => 7,
        Level::Factor => 6,
    }
}

/// The operator that continues a binary chain at `level`, if the token is one.
pub open spec fn binary_op(level: Level, k: TokenKind) -> Option<BinaryOp> {
    match (level, k) {
        (Level::Factor, TokenKind::Slash) => Some(BinaryOp::Slash),
        (Level::Factor, TokenKind::Star) => Some(BinaryOp::Star),
        (Level::Term, TokenKind::Plus) => Some(BinaryOp::Plus),
        (Level::Term, TokenKind::Minus) => Some(BinaryOp::Minus),
        (Level::Comparison, TokenKind::Greater) => Some(BinaryOp::Greater),
        (Level::Comparison, TokenKind::GreaterEqual) => Some(BinaryOp::GreaterEqual),
        (Level::Comparison, TokenKind::Less) => Some(BinaryOp::Less),
        (Level::Comparison, TokenKind::LessEqual) => Some(BinaryOp::LessEqual),
        (Level::Equality, TokenKind::EqualEqual) => Some(BinaryOp::EqualEqual),
        (Level::Equality, TokenKind::BangEqual) => Some(BinaryOp::BangEqual),
        _ => None,
    }
}

/// The operator that continues a logical chain at `level`, if the token is one.
pub open spec fn logical_op(level: Level, k: TokenKind) -> Option<LogicalOp> {
    match (level, k) {
        (Level::Or, TokenKind::Or) => Some(LogicalOp::Or),
        (Level::And, TokenKind::And) => Some(LogicalOp::And),
        _ => None,
    }
}

pub open spec fn is_binary_level(level: Level) -> bool {
    level is Equality || level is Comparison || level is Term || level is Factor
}

/// The primary expression at the current token.
pub open spec fn parse_primary(t: Seq<Token>, s: PState) -> ExprOutcome
    decreases t.len() - s.pos, 3nat,
    when 0 <= s.pos < t.len()
{
    let here = tok(t, s);
    match here.token_type {
        TokenType::Number(v) => (Ok(ExprView::Literal(LiteralView::Number(v@))), adv(s)),
        TokenType::StringLiteral(v) => (Ok(ExprView::Literal(LiteralView::StringLiteral(v@))), adv(s)),
        TokenType::Boolean(b) => (Ok(ExprView::Literal(LiteralView::Boolean(b))), adv(s)),
        TokenType::Null => (Ok(ExprView::Literal(LiteralView::Null)), adv(s)),
        TokenType::LeftParen => {
            let (r, s1) = parse_assignment(t, adv(s));
            match r {
                Err(e) => (Err(e), s1),
                Ok(x) => if kind(t, s1) is RightParen {
                    (Ok(ExprView::Grouping(Box::new(x))), adv(s1))
                } else {
                    fail(t, s1, expected(t, s1, "Esperava ')' após expressão, mas encontrei '"@))
                },
            }
        },
        TokenType::Identifier(name) => (Ok(ExprView::Variable(name@, here.line, s.ids)), take_id(adv(s))),
        TokenType::This => (Ok(ExprView::This(here, s.ids)), take_id(adv(s))),
        TokenType::Super => {
            let s1 = adv(s);
            if kind(t, s1) is Dot {
                let s2 = adv(s1);
                if kind(t, s2) is Identifier {
                    (Ok(ExprView::Super(here, tok(t, s2), s2.ids)), take_id(adv(s2)))
                } else {
                    fail(t, s2, expected(t, s2, "Esperava o nome de um método, mas encontrei '"@))
                }
            } else {
                fail(t, s1, expected(t, s1, "Esperava '.' após uso de super, mas encontrei '"@))
            }
        },
        _ => fail(
            t,
            s,
            "Token inesperado '"@ + here.lexeme@ + "' na linha "@ + decimal(here.line as nat) + "."@,
        ),
    }
}

/// A primary expression followed by any calls and property reads.
pub open spec fn parse_call(t: Seq<Token>, s: PState) -> ExprOutcome
    decreases t.len() - s.pos, 4nat,
    when 0 <= s.pos < t.len()
{
    let (r, s1) = parse_primary(t, s);
    match r {
        Err(e) => (Err(e), s1),
        Ok(c) => if kept(t, s, s1) {
            call_loop(t, s1, c)
        } else {
            (Ok(c), s1)
        },
    }
}

/// The calls and property reads that follow `callee`.
pub open spec fn call_loop(t: Seq<Token>, s: PState, callee: ExprView) -> ExprOutcome
    decreases t.len() - s.pos, 1nat,
    when 0 <= s.pos < t.len()
{
    if check(t, s, TokenKind::LeftParen) {
        let (r, s2) = args_loop(t, adv(s), Seq::empty());
        match r {
            Err(e) => (Err(e), s2),
            Ok(args) => if !check(t, s2, TokenKind::RightParen) {
                fail(t, s2, expected(t, s2, "Esperava ')' após argumentos, mas encontrei '"@))
            } else {
                let c2 = ExprView::Call(Box::new(callee), args, tok(t, s2));
                let s3 = adv(s2);
                if moved(t, s, s3) {
                    call_loop(t, s3, c2)
                } else {
                    (Ok(c2), s3)
                }
            },
        }
    } else if check(t, s, TokenKind::Dot) {
        let s1 = adv(s);
        if kind(t, s1) is Identifier {
            let c2 = ExprView::Get(Box::new(callee), tok(t, s1));
            let s2 = adv(s1);
            if moved(t, s, s2) {
                call_loop(t, s2, c2)
            } else {
                (Ok(c2), s2)
            }
        } else {
            fail(t, s1, expected(t, s1, "Esperava nome de propriedade após '.', mas encontrei '"@))
        }
    } else {
        (Ok(callee), s)
    }
}

/// The arguments of a call, after `args`, up to the closing parenthesis.
pub open spec fn args_loop(t: Seq<Token>, s: PState, args: Seq<ExprView>) -> (
    Result<Seq<ExprView>, ParseErrorView>,
    PState,
)
    decreases t.len() - s.pos, 13nat,
    when 0 <= s.pos < t.len()
{
    if check(t, s, TokenKind::RightParen) {
        (Ok(args), s)
    } else {
        let s1 = if args.len() > 255 {
            report(t, s, "Não é possível ter mais de 255 argumentos."@)
        } else {
            s
        };
        let (r, s2) = parse_assignment(t, s1);
        match r {
            Err(e) => (Err(e), s2),
            Ok(x) => {
                let a2 = args.push(x);
                if !check(t, s2, TokenKind::Comma) {
                    (Ok(a2), s2)
                } else {
                    let s3 = adv(s2);
                    if moved(t, s, s3) {
                        args_loop(t, s3, a2)
                    } else {
                        (Ok(a2), s3)
                    }
                }
            },
        }
    }
}

/// Prefix `!` and `-` applied to a call expression.
pub open spec fn parse_unary(t: Seq<Token>, s: PState) -> ExprOutcome
    decreases t.len() - s.pos, 5nat,
    when 0 <= s.pos < t.len()
{
    let line = tok(t, s).line;
    if kind(t, s) is Bang || kind(t, s) is Minus {
        let op = if kind(t, s) is Bang { UnaryOp::Bang } else { UnaryOp::Minus };
        let (r, s1) = parse_unary(t, adv(s));
        match r {
            Err(e) => (Err(e), s1),
            Ok(x) => (Ok(ExprView::Unary(op, line, Box::new(x))), s1),
        }
    } else {
        parse_call(t, s)
    }
}

/// A left-associated chain of binary operators at `level`.
pub open spec fn parse_binary(t: Seq<Token>, s: PState, level: Level) -> ExprOutcome
    decreases t.len() - s.pos, rank(level),
    when 0 <= s.pos < t.len() && is_binary_level(level)
{
    let (r, s1) = match level {
        Level::Factor => parse_unary(t, s),
        Level::Term => parse_binary(t, s, Level::Factor),
        Level::Comparison => parse_binary(t, s, Level::Term),
        _ => parse_binary(t, s, Level::Comparison),
    };
    match r {
        Err(e) => (Err(e), s1),
        Ok(l) => if kept(t, s, s1) {
            binary_loop(t, s1, l, level)
        } else {
            (Ok(l), s1)
        },
    }
}

/// The operators and operands that follow `left` at `level`.
pub open spec fn binary_loop(t: Seq<Token>, s: PState, left: ExprView, level: Level) -> ExprOutcome
    decreases t.len() - s.pos, 1nat,
    when 0 <= s.pos < t.len() && is_binary_level(level)
{
    match binary_op(level, kind(t, s)) {
        None => (Ok(left), s),
        Some(op) => {
            let line = tok(t, s).line;
            let s1 = adv(s);
            let (r, s2) = match level {
                Level::Factor => parse_unary(t, s1),
                Level::Term => parse_binary(t, s1, Level::Factor),
                Level::Comparison => parse_binary(t, s1, Level::Term),
                _ => parse_binary(t, s1, Level::Comparison),
            };
            match r {
                Err(e) => (Err(e), s2),
                Ok(right) => {
                    let l2 = ExprView::Binary(Box::new(left), op, line, Box::new(right));
                    if moved(t, s, s2) {
                        binary_loop(t, s2, l2, level)
                    } else {
                        (Ok(l2), s2)
                    }
                },
            }
        },
    }
}

/// A left-associated chain of `and` (at `And`) or `or` (at `Or`).
pub open spec fn parse_logical(t: Seq<Token>, s: PState, level: Level) -> ExprOutcome
    decreases t.len() - s.pos, rank(level),
    when 0 <= s.pos < t.len() && (level is And || level is Or)
{
    let (r, s1) = if level is And {
        parse_binary(t, s, Level::Equality)
    } else {
        parse_logical(t, s, Level::And)
    };
    match r {
        Err(e) => (Err(e), s1),
        Ok(l) => if kept(t, s, s1) {
            logical_loop(t, s1, l, level)
        } else {
            (Ok(l), s1)
        },
    }
}

pub open spec fn logical_loop(t: Seq<Token>, s: PState, left: ExprView, level: Level) -> ExprOutcome
    decreases t.len() - s.pos, 1nat,
    when 0 <= s.pos < t.len() && (level is And || level is Or)
{
    match logical_op(level, kind(t, s)) {
        None => (Ok(left), s),
        Some(op) => {
            let line = tok(t, s).line;
            let s1 = adv(s);
            let (r, s2) = if level is And {
                parse_binary(t, s1, Level::Equality)
            } else {
                parse_logical(t, s1, Level::And)
            };
            match r {
                Err(e) => (Err(e), s2),
                Ok(right) => {
                    let l2 = ExprView::Logical(Box::new(left), op, line, Box::new(right));
                    if moved(t, s, s2) {
                        logical_loop(t, s2, l2, level)
                    } else {
                        (Ok(l2), s2)
                    }
                },
            }
        },
    }
}

/// An assignment (to a variable or a property), or else an `or` chain.
pub open spec fn parse_assignment(t: Seq<Token>, s: PState) -> ExprOutcome
    decreases t.len() - s.pos, 12nat,
    when 0 <= s.pos < t.len()
{
    let (r, s1) = parse_logical(t, s, Level::Or);
    match r {
        Err(e) => (Err(e), s1),
        Ok(x) => if !kept(t, s, s1) || !check(t, s1, TokenKind::Equal) {
            (Ok(x), s1)
        } else {
            let s2 = adv(s1);
            match x {
                ExprView::Variable(name, line, _) => {
                    let (rv, s3) = parse_assignment(t, take_id(s2));
                    match rv {
                        Err(e) => (Err(e), s3),
                        Ok(v) => (Ok(ExprView::Assign(name, line, Box::new(v), s2.ids)), s3),
                    }
                },
                ExprView::Get(obj, name) => {
                    let (rv, s3) = parse_assignment(t, s2);
                    match rv {
                        Err(e) => (Err(e), s3),
                        Ok(v) => (Ok(ExprView::SetProperty(obj, name, Box::new(v))), s3),
                    }
                },
                _ => fail(t, s2, "Alvo de atribuição inválido."@),
            }
        },
    }
}

/// Skips tokens after an error until a token that starts a statement
/// (`if`, `while`, `for`, `return`, `var`, `print`) or the end.
pub open spec fn sync_loop(t: Seq<Token>, s: PState) -> PState
    decreases t.len() - s.pos,
{
    if !(0 <= s.pos < t.len()) || at_end(t, s) || kind(t, s) is If || kind(t, s) is While
        || kind(t, s) is For || kind(t, s) is Return || kind(t, s) is Var || kind(t, s) is Print {
        s
    } else {
        sync_loop(t, adv(s))
    }
}

/// Error recovery: moves past the current token, then as `sync_loop`.
pub open spec fn synchronize(t: Seq<Token>, s: PState) -> PState {
    if at_end(t, s) {
        s
    } else {
        sync_loop(t, adv(s))
    }
}

/// The parameter names of a function, after `params`, up to `)`.
pub open spec fn param_loop(t: Seq<Token>, s: PState, params: Seq<Seq<char>>) -> (
    Option<Seq<Seq<char>>>,
    PState,
)
    decreases t.len() + 2 - s.pos,
{
    if !(0 <= s.pos < t.len()) || check(t, s, TokenKind::RightParen) {
        (Some(params), s)
    } else {
        match tok(t, s).token_type {
            TokenType::Identifier(n) => {
                let p2 = params.push(n@);
                let s1 = adv(s);
                if check(t, s1, TokenKind::Comma) {
                    param_loop(t, adv(s1), p2)
                } else if !check(t, s1, TokenKind::RightParen) {
                    (
                        None,
                        report(t, s1, expected(t, s1, "Esperava ',' ou ')' após parâmetro, mas encontrei '"@)),
                    )
                } else {
                    param_loop(t, s1, p2)
                }
            },
            _ => (None, report(t, s, expected(t, s, "Esperava um nome de parâmetro, mas encontrei '"@))),
        }
    }
}

/// `print` expression `;`
pub open spec fn print_stmt(t: Seq<Token>, s: PState) -> StmtOutcome
    decreases t.len() - s.pos, 29nat,
    when 0 <= s.pos < t.len()
{
    let (r, s1) = parse_assignment(t, adv(s));
    match r {
        Err(e) => (Err(e), s1),
        Ok(x) => if check(t, s1, TokenKind::Semicolon) {
            (Ok(StmtView::Print(x)), adv(s1))
        } else {
            fail(t, s1, expected(t, s1, "Esperava ';' após o valor do print, mas encontrei '"@))
        },
    }
}

/// expression `;`
pub open spec fn expr_stmt(t: Seq<Token>, s: PState) -> StmtOutcome
    decreases t.len() - s.pos, 29nat,
    when 0 <= s.pos < t.len()
{
    let (r, s1) = parse_assignment(t, s);
    match r {
        Err(e) => (Err(e), s1),
        Ok(x) => if check(t, s1, TokenKind::Semicolon) {
            (Ok(StmtView::ExprStatement(x)), adv(s1))
        } else {
            fail(t, s1, expected(t, s1, "Esperava ';' após expressão, mas encontrei '"@))
        },
    }
}

/// `var` name (`=` expression)? `;`
pub open spec fn var_stmt(t: Seq<Token>, s: PState) -> StmtOutcome
    decreases t.len() - s.pos, 29nat,
    when 0 <= s.pos < t.len()
{
    let s1 = adv(s);
    match tok(t, s1).token_type {
        TokenType::Identifier(name) => {
            let line = tok(t, s1).line;
            let s2 = adv(s1);
            let (init, s3) = if kind(t, s2) is Equal {
                let (r, s3) = parse_assignment(t, adv(s2));
                match r {
                    Err(e) => (Err(e), s3),
                    Ok(x) => (Ok(Some(x)), s3),
                }
            } else {
                (Ok(None), s2)
            };
            match init {
                Err(e) => (Err(e), s3),
                Ok(i) => if check(t, s3, TokenKind::Semicolon) {
                    (Ok(StmtView::Var(name@, i, line)), adv(s3))
                } else {
                    fail(t, s3, expected(t, s3, "Esperava ';' após declaração de variável, mas encontrei '"@))
                },
            }
        },
        _ => fail(t, s1, expected(t, s1, "Esperava nome de variável após 'var', mas encontrei '"@)),
    }
}

/// A statement whose failure is recovered from by `synchronize`.
pub open spec fn recovered(t: Seq<Token>, o: StmtOutcome) -> MaybeStmt {
    match o.0 {
        Ok(x) => (Some(x), o.1),
        Err(_) => (None, synchronize(t, o.1)),
    }
}

/// One statement, chosen by its first token.
pub open spec fn statement(t: Seq<Token>, s: PState) -> MaybeStmt
    decreases t.len() - s.pos, 30nat,
    when 0 <= s.pos < t.len()
{
    match kind(t, s) {
        TokenKind::Print => recovered(t, print_stmt(t, s)),
        TokenKind::Var => recovered(t, var_stmt(t, s)),
        TokenKind::LeftBrace => block_stmt(t, s),
        TokenKind::If => if_stmt(t, s),
        TokenKind::While => while_stmt(t, s),
        TokenKind::For => for_stmt(t, s),
        TokenKind::Function => function_stmt(t, s),
        TokenKind::Return => return_stmt(t, s),
        _ => recovered(t, expr_stmt(t, s)),
    }
}

/// The statements of a block, after `body`, up to `}` or the end.
pub open spec fn block_loop(t: Seq<Token>, s: PState, body: Seq<StmtView>) -> (Option<Seq<StmtView>>, PState)
    decreases t.len() - s.pos, 31nat,
    when 0 <= s.pos < t.len()
{
    if check(t, s, TokenKind::RightBrace) || at_end(t, s) {
        (Some(body), s)
    } else {
        let (r, s1) = statement(t, s);
        match r {
            None => (None, s1),
            Some(x) => if moved(t, s, s1) {
                block_loop(t, s1, body.push(x))
            } else {
                (Some(body.push(x)), s1)
            },
        }
    }
}

/// `{` statements `}`; the opening token is taken without looking at it.
/// Taking the last token of the sequence runs the parser out of tokens.
pub open spec fn block_stmt(t: Seq<Token>, s: PState) -> MaybeStmt
    decreases t.len() - s.pos, 29nat,
    when 0 <= s.pos < t.len()
{
    if s.pos + 1 >= t.len() {
        (None, PState { overrun: true, ..s })
    } else {
        let (r, s1) = block_loop(t, adv(s), Seq::empty());
        match r {
            None => (None, s1),
            Some(body) => if at_end(t, s1) {
                (None, report(t, s1, "Bloco não fechado — esperava '}'."@))
            } else {
                (Some(StmtView::Block(body)), adv(s1))
            },
        }
    }
}

/// `if` `(` condition `)` statement (`else` statement)?
pub open spec fn if_stmt(t: Seq<Token>, s: PState) -> MaybeStmt
    decreases t.len() - s.pos, 29nat,
    when 0 <= s.pos < t.len()
{
    let s1 = adv(s);
    if !check(t, s1, TokenKind::LeftParen) {
        (None, synchronize(t, report(t, s1, expected(t, s1, "Esperava '(' após 'if', mas encontrei '"@))))
    } else {
        let (r, s2) = parse_assignment(t, adv(s1));
        match r {
            Err(_) => (None, synchronize(t, s2)),
            Ok(c) => if !check(t, s2, TokenKind::RightParen) {
                (
                    None,
                    synchronize(t, report(t, s2, expected(t, s2, "Esperava ')' após condição do 'if', mas encontrei '"@))),
                )
            } else if !kept(t, s, s2) {
                (None, s2)
            } else {
                let (th, s3) = statement(t, adv(s2));
                match th {
                    None => (None, s3),
                    Some(tb) => if check(t, s3, TokenKind::Else) && kept(t, s, s3) {
                        let (el, s4) = statement(t, adv(s3));
                        match el {
                            Some(eb) => (Some(StmtView::If(c, Box::new(tb), Some(Box::new(eb)))), s4),
                            None => (None, s4),
                        }
                    } else {
                        (Some(StmtView::If(c, Box::new(tb), None)), s3)
                    },
                }
            },
        }
    }
}

/// `while` `(` condition `)` statement
pub open spec fn while_stmt(t: Seq<Token>, s: PState) -> MaybeStmt
    decreases t.len() - s.pos, 29nat,
    when 0 <= s.pos < t.len()
{
    let s1 = adv(s);
    if !check(t, s1, TokenKind::LeftParen) {
        (None, synchronize(t, report(t, s1, expected(t, s1, "Esperava '(' após 'while', mas encontrei '"@))))
    } else {
        let (r, s2) = parse_assignment(t, adv(s1));
        match r {
            Err(_) => (None, synchronize(t, s2)),
            Ok(c) => if !check(t, s2, TokenKind::RightParen) {
                (
                    None,
                    synchronize(
                        t,
                        report(t, s2, expected(t, s2, "Esperava ')' após condição do 'while', mas encontrei '"@)),
                    ),
                )
            } else if !kept(t, s, s2) {
                (None, s2)
            } else {
                let (b, s3) = statement(t, adv(s2));
                match b {
                    Some(body) => (Some(StmtView::While(c, Box::new(body))), s3),
                    None => (None, s3),
                }
            },
        }
    }
}

/// The loop that a `for` statement stands for: the initializer, then a
/// `while` over the condition whose body is the statement and the increment.
pub open spec fn desugar_for(init: Option<StmtView>, cond: ExprView, inc: ExprView, body: StmtView) -> StmtView {
    let looped = StmtView::While(
        cond,
        Box::new(StmtView::Block(seq![body, StmtView::ExprStatement(inc)])),
    );
    match init {
        Some(i) => StmtView::Block(seq![i, looped]),
        None => StmtView::Block(seq![looped]),
    }
}

/// The initializer clause of a `for`: a `var` declaration, nothing (`;`),
/// or an expression statement. `Err` when it failed (after recovery).
pub open spec fn for_init(t: Seq<Token>, s: PState) -> (Result<Option<StmtView>, ()>, PState)
    decreases t.len() - s.pos, 29nat,
    when 0 <= s.pos < t.len()
{
    if kind(t, s) is Var {
        let (r, s1) = var_stmt(t, s);
        match r {
            Ok(v) => (Ok(Some(v)), s1),
            Err(_) => (Err(()), synchronize(t, s1)),
        }
    } else if kind(t, s) is Semicolon {
        (Ok(None), adv(s))
    } else {
        let (r, s1) = expr_stmt(t, s);
        match r {
            Ok(v) => (Ok(Some(v)), s1),
            Err(_) => (Err(()), synchronize(t, s1)),
        }
    }
}

/// `for` `(` initializer condition `;` increment `)` statement
pub open spec fn for_stmt(t: Seq<Token>, s: PState) -> MaybeStmt
    decreases t.len() - s.pos, 29nat,
    when 0 <= s.pos < t.len()
{
    let s1 = adv(s);
    if !check(t, s1, TokenKind::LeftParen) {
        (None, synchronize(t, report(t, s1, expected(t, s1, "Esperava '(' após 'for', mas encontrei '"@))))
    } else {
        let (ri, s3) = for_init(t, adv(s1));
        match ri {
            Err(_) => (None, s3),
            Ok(init) => if !moved(t, s, s3) {
                (None, s3)
            } else {
                let (rc, s4) = parse_assignment(t, s3);
                match rc {
                    Err(_) => (None, synchronize(t, s4)),
                    Ok(cond) => if !check(t, s4, TokenKind::Semicolon) {
                        (
                            None,
                            synchronize(
                                t,
                                report(t, s4, expected(t, s4, "Esperava ';' após condição do 'for', mas encontrei '"@)),
                            ),
                        )
                    } else {
                        let (rn, s6) = parse_assignment(t, adv(s4));
                        match rn {
                            Err(_) => (None, synchronize(t, s6)),
                            Ok(inc) => if !check(t, s6, TokenKind::RightParen) {
                                (
                                    None,
                                    synchronize(
                                        t,
                                        report(
                                            t,
                                            s6,
                                            expected(t, s6, "Esperava ')' após incremento do 'for', mas encontrei '"@),
                                        ),
                                    ),
                                )
                            } else if !kept(t, s, s6) {
                                (None, s6)
                            } else {
                                let (rb, s7) = statement(t, adv(s6));
                                match rb {
                                    Some(body) => (Some(desugar_for(init, cond, inc, body)), s7),
                                    None => (None, s7),
                                }
                            },
                        }
                    },
                }
            },
        }
    }
}

/// `function` name `(` parameters `)` block
pub open spec fn function_stmt(t: Seq<Token>, s: PState) -> MaybeStmt
    decreases t.len() - s.pos, 29nat,
    when 0 <= s.pos < t.len()
{
    let s1 = adv(s);
    match tok(t, s1).token_type {
        TokenType::Identifier(name) => {
            let line = tok(t, s1).line;
            let s2 = adv(s1);
            if kind(t, s2) is LeftParen {
                let (rp, s3) = param_loop(t, adv(s2), Seq::empty());
                match rp {
                    None => (None, s3),
                    Some(params) => if !kept(t, s, s3) {
                        (None, s3)
                    } else {
                        let (rb, s5) = block_stmt(t, adv(s3));
                        match rb {
                            Some(StmtView::Block(body)) => (Some(StmtView::Function(name@, params, body, line)), s5),
                            _ => (None, s5),
                        }
                    },
                }
            } else {
                (None, report(t, s2, expected(t, s2, "Esperava '(' após nome da função, mas encontrei '"@)))
            }
        },
        _ => (None, report(t, s1, expected(t, s1, "Esperava um nome, mas encontrei '"@))),
    }
}

/// `return` expression? `;` (the line recorded is that of the token after
/// the value, or after the `;` when there is no value)
pub open spec fn return_stmt(t: Seq<Token>, s: PState) -> MaybeStmt
    decreases t.len() - s.pos, 29nat,
    when 0 <= s.pos < t.len()
{
    let s1 = adv(s);
    if check(t, s1, TokenKind::Semicolon) {
        let s2 = adv(s1);
        (Some(StmtView::Return(tok(t, s2).line, None)), s2)
    } else {
        let (r, s2) = parse_assignment(t, s1);
        match r {
            Ok(x) => if check(t, s2, TokenKind::Semicolon) {
                (Some(StmtView::Return(tok(t, s2).line, Some(x))), adv(s2))
            } else {
                (None, report(t, s2, expected(t, s2, "Esperava ';' após retorno, mas encontrei '"@)))
            },
            Err(_) => (None, report(t, s2, expected(t, s2, "Esperava um valor válido de retorno, mas encontrei '"@))),
        }
    }
}

/// Statements until the end of the tokens, after `stmts`; statements that
/// failed are left out.
pub open spec fn parse_all(t: Seq<Token>, s: PState, stmts: Seq<StmtView>) -> (Seq<StmtView>, PState)
    decreases t.len() - s.pos,
{
    if !(0 <= s.pos < t.len()) || at_end(t, s) {
        (stmts, s)
    } else {
        let (r, s1) = statement(t, s);
        let st2 = match r {
            Some(x) => stmts.push(x),
            None => stmts,
        };
        if moved(t, s, s1) {
            parse_all(t, s1, st2)
        } else {
            (st2, s1)
        }
    }
}

} // verus!
