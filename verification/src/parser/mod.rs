pub mod grammar;
pub mod ids;
pub mod laws;
mod statements;

use vstd::prelude::*;

use crate::expr::{expr_view, exprs_view, lemma_exprs_view_len, lemma_exprs_view_push, next_id, ExprView, Expression, LiteralView};
use crate::text::{push_decimal, push_str, string_of};
use crate::token::{BinaryOp, LogicalOp, Token, TokenLiteral, TokenType, UnaryOp};
use self::grammar::{ParseErrorView, PState, Level};
use self::grammar as g;

verus! {

#[derive(Debug, PartialEq, Clone)]
pub struct ParseError {
    pub token: Token,
    pub message: String,
}

impl View for ParseError {
    type V = ParseErrorView;

    open spec fn view(&self) -> ParseErrorView {
        ParseErrorView { token: self.token, message: self.message@ }
    }
}

impl ParseError {
    pub fn new(token: Token, message: String) -> (e: ParseError)
        ensures
            e.token == token,
            e.message == message,
    {
        ParseError { token, message }
    }

    /// A copy of this error that is equal to it.
    pub fn duplicate(&self) -> (e: ParseError)
        ensures
            e == *self,
    {
        ParseError { token: self.token.duplicate(), message: self.message.clone() }
    }
}

pub open spec fn errors_view(errors: Seq<ParseError>) -> Seq<ParseErrorView> {
    errors.map_values(|e: ParseError| e@)
}

pub open spec fn result_view(r: Result<Expression, ParseError>) -> Result<ExprView, ParseErrorView> {
    match r {
        Ok(e) => Ok(expr_view(e)),
        Err(p) => Err(p@),
    }
}

/// Whether two token types count as the same kind for `check`.
fn same_kind_exec(a: &TokenType, b: &TokenType) -> (r: bool)
    ensures
        r == g::same_kind(a@, b@),
{
    match (a, b) {
        (TokenType::Identifier(_), TokenType::Identifier(_)) => true,
        (TokenType::Number(_), TokenType::Number(_)) => true,
        (TokenType::StringLiteral(x), TokenType::StringLiteral(y)) => x.eq(y),
        (TokenType::Boolean(x), TokenType::Boolean(y)) => *x == *y,
            (TokenType::LeftParen, TokenType::LeftParen) => true,
            (TokenType::RightParen, TokenType::RightParen) => true,
            (TokenType::LeftBrace, TokenType::LeftBrace) => true,
            (TokenType::RightBrace, TokenType::RightBrace) => true,
            (TokenType::Comma, TokenType::Comma) => true,
            (TokenType::Dot, TokenType::Dot) => true,
            (TokenType::Semicolon, TokenType::Semicolon) => true,
            (TokenType::Star, TokenType::Star) => true,
            (TokenType::Plus, TokenType::Plus) => true,
            (TokenType::Minus, TokenType::Minus) => true,
            (TokenType::Slash, TokenType::Slash) => true,
            (TokenType::PlusEqual, TokenType::PlusEqual) => true,
            (TokenType::MinusEqual, TokenType::MinusEqual) => true,
            (TokenType::SlashEqual, TokenType::SlashEqual) => true,
            (TokenType::StarEqual, TokenType::StarEqual) => true,
            (TokenType::Bang, TokenType::Bang) => true,
            (TokenType::BangEqual, TokenType::BangEqual) => true,
            (TokenType::Equal, TokenType::Equal) => true,
            (TokenType::EqualEqual, TokenType::EqualEqual) => true,
            (TokenType::Greater, TokenType::Greater) => true,
            (TokenType::GreaterEqual, TokenType::GreaterEqual) => true,
            (TokenType::Less, TokenType::Less) => true,
            (TokenType::LessEqual, TokenType::LessEqual) => true,
            (TokenType::And, TokenType::And) => true,
            (TokenType::Class, TokenType::Class) => true,
            (TokenType::Else, TokenType::Else) => true,
            (TokenType::If, TokenType::If) => true,
            (TokenType::Function, TokenType::Function) => true,
            (TokenType::For, TokenType::For) => true,
            (TokenType::Null, TokenType::Null) => true,
            (TokenType::Or, TokenType::Or) => true,
            (TokenType::Print, TokenType::Print) => true,
            (TokenType::Return, TokenType::Return) => true,
            (TokenType::Super, TokenType::Super) => true,
            (TokenType::This, TokenType::This) => true,
            (TokenType::Var, TokenType::Var) => true,
            (TokenType::While, TokenType::While) => true,
            (TokenType::Switch, TokenType::Switch) => true,
            (TokenType::Case, TokenType::Case) => true,
            (TokenType::EOF, TokenType::EOF) => true,
        _ => false,
    }
}

/// A recursive-descent parser over a token sequence that ends with the
/// end-of-file token.
pub struct Parser {
    tokens: Vec<Token>,
    current_pos: usize,
    pub errors: Vec<ParseError>,
    ids: usize,
    overrun: bool,
}

impl Parser {
    pub closed spec fn toks(&self) -> Seq<Token> {
        self.tokens@
    }

    pub closed spec fn state(&self) -> PState {
        PState {
            pos: self.current_pos as int,
            errors: errors_view(self.errors@),
            ids: self.ids,
            overrun: self.overrun,
        }
    }

    /// The tokens end with the end-of-file token and the position is on one of them.
    pub closed spec fn wf(&self) -> bool {
        &&& self.tokens@.len() > 0
        &&& self.tokens@.last().token_type is EOF
        &&& self.current_pos < self.tokens.len()
    }

    /// What a well-formed parser holds: tokens that end with the end-of-file
    /// token, and a position on one of them.
    pub proof fn lemma_wf(&self)
        requires
            self.wf(),
        ensures
            self.toks().len() > 0,
            self.toks().last().token_type is EOF,
            0 <= self.state().pos < self.toks().len(),
    {
    }

    /// A parser at the first token, with no errors, handing out identifiers
    /// from 0, as the first parse of a run does (`continuing` starts a later one).
    pub fn new(tokens: Vec<Token>) -> (p: Parser)
        requires
            tokens@.len() > 0,
            tokens@.last().token_type is EOF,
        ensures
            p.wf(),
            p.toks() == tokens@,
            p.state() == (PState { pos: 0, errors: Seq::empty(), ids: 0, overrun: false }),
    {
        let p = Parser { tokens, current_pos: 0, errors: Vec::new(), ids: 0, overrun: false };
        assert(errors_view(p.errors@) =~= Seq::empty());
        p
    }

    /// A parser at the first token, with no errors, handing out identifiers
    /// from `next_id` on: the counter of an earlier parser
    /// (`next_free_id`), so that the identifiers of several parses in one run
    /// never meet.
    pub fn continuing(tokens: Vec<Token>, next_id: usize) -> (p: Parser)
        requires
            tokens@.len() > 0,
            tokens@.last().token_type is EOF,
        ensures
            p.wf(),
            p.toks() == tokens@,
            p.state() == (PState { pos: 0, errors: Seq::empty(), ids: next_id, overrun: false }),
    {
        let p = Parser { tokens, current_pos: 0, errors: Vec::new(), ids: next_id, overrun: false };
        assert(errors_view(p.errors@) =~= Seq::empty());
        p
    }

    /// The errors reported so far, in the order they were found.
    pub fn errors(&self) -> (r: &Vec<ParseError>)
        ensures
            errors_view(r@) == self.state().errors,
    {
        &self.errors
    }

    /// Whether parsing ran past the last token (the grammar then needed a
    /// token after the end of the sequence).
    pub fn ran_out_of_tokens(&self) -> (r: bool)
        ensures
            r == self.state().overrun,
    {
        self.overrun
    }

    /// The identifier the next expression that needs one will get.
    pub fn next_free_id(&self) -> (r: usize)
        ensures
            r == self.state().ids,
    {
        self.ids
    }

    pub fn is_at_end(&self) -> (r: bool)
        requires
            self.wf(),
        ensures
            r == g::at_end(self.toks(), self.state()),
    {
        match self.tokens[self.current_pos].token_type {
            TokenType::EOF => true,
            _ => false,
        }
    }

    pub fn peek(&self) -> (r: &Token)
        requires
            self.wf(),
        ensures
            *r == g::tok(self.toks(), self.state()),
    {
        &self.tokens[self.current_pos]
    }

    /// Moves to the next token; the current one must not be the last.
    pub fn advance(&mut self)
        requires
            old(self).wf(),
            old(self).state().pos + 1 < old(self).toks().len(),
        ensures
            final(self).wf(),
            final(self).toks() == old(self).toks(),
            final(self).state() == g::adv(old(self).state()),
    {
        self.current_pos = self.current_pos + 1;
    }

    pub fn check(&self, token_type: &TokenType) -> (r: bool)
        requires
            self.wf(),
        ensures
            r == g::check(self.toks(), self.state(), token_type@),
    {
        if self.is_at_end() {
            return false;
        }
        same_kind_exec(&self.tokens[self.current_pos].token_type, token_type)
    }

    /// The message `prefix`, the current token's text, then `'.`.
    fn expected(&self, prefix: &str) -> (m: String)
        requires
            self.wf(),
        ensures
            m@ == g::expected(self.toks(), self.state(), prefix@),
    {
        let mut m = String::new();
        push_str(&mut m, prefix);
        push_str(&mut m, self.tokens[self.current_pos].lexeme.as_str());
        push_str(&mut m, "'.");
        m
    }

    /// Records an error at the current token and returns it.
    pub fn error(&mut self, message: String) -> (e: ParseError)
        requires
            old(self).wf(),
        ensures
            final(self).wf(),
            final(self).toks() == old(self).toks(),
            e@ == g::error_here(old(self).toks(), old(self).state(), message@),
            final(self).state() == g::report(old(self).toks(), old(self).state(), message@),
    {
        let e = ParseError::new(self.tokens[self.current_pos].duplicate(), message);
        self.errors.push(e.duplicate());
        proof {
            assert(errors_view(self.errors@) =~= errors_view(old(self).errors@).push(e@));
        }
        e
    }

    /// The state facts that every parsing function keeps.
    pub open spec fn progress(&self, before: &Parser) -> bool {
        &&& self.wf()
        &&& self.toks() == before.toks()
        &&& g::kept(before.toks(), before.state(), self.state())
    }
}

impl Parser {
    pub fn primary(&mut self) -> (r: Result<Expression, ParseError>)
        requires
            old(self).wf(),
        ensures
            final(self).progress(old(self)),
            (result_view(r), final(self).state()) == g::parse_primary(old(self).toks(), old(self).state()),
        decreases old(self).toks().len() - old(self).state().pos, 3nat,
    {
        let line = self.tokens[self.current_pos].line;
        match &self.tokens[self.current_pos].token_type {
            TokenType::Number(v) => {
                let v = v.clone();
                self.advance();
                Ok(Expression::Literal(TokenLiteral::Number(v)))
            },
            TokenType::StringLiteral(v) => {
                let v = v.clone();
                self.advance();
                Ok(Expression::Literal(TokenLiteral::StringLiteral(v)))
            },
            TokenType::Boolean(b) => {
                let b = *b;
                self.advance();
                Ok(Expression::Literal(TokenLiteral::Boolean(b)))
            },
            TokenType::Null => {
                self.advance();
                Ok(Expression::Literal(TokenLiteral::Null))
            },
            TokenType::LeftParen => {
                self.advance();
                let expr = self.expression()?;
                match self.tokens[self.current_pos].token_type {
                    TokenType::RightParen => {
                        self.advance();
                        Ok(Expression::Grouping(Box::new(expr)))
                    },
                    _ => {
                        let m = self.expected("Esperava ')' após expressão, mas encontrei '");
                        Err(self.error(m))
                    },
                }
            },
            TokenType::Identifier(name) => {
                let name = name.clone();
                self.advance();
                let id = next_id(&mut self.ids);
                Ok(Expression::Variable(name, line, id))
            },
            TokenType::This => {
                let token = self.tokens[self.current_pos].duplicate();
                self.advance();
                let id = next_id(&mut self.ids);
                Ok(Expression::This(token, id))
            },
            TokenType::Super => {
                let key_super = self.tokens[self.current_pos].duplicate();
                self.advance();
                match self.tokens[self.current_pos].token_type {
                    TokenType::Dot => {
                        self.advance();
                        match self.tokens[self.current_pos].token_type {
                            TokenType::Identifier(_) => {
                                let method = self.tokens[self.current_pos].duplicate();
                                self.advance();
                                let id = next_id(&mut self.ids);
                                Ok(Expression::Super(key_super, method, id))
                            },
                            _ => {
                                let m = self.expected("Esperava o nome de um método, mas encontrei '");
                                Err(self.error(m))
                            },
                        }
                    },
                    _ => {
                        let m = self.expected("Esperava '.' após uso de super, mas encontrei '");
                        Err(self.error(m))
                    },
                }
            },
            _ => {
                let mut m = string_of("Token inesperado '");
                push_str(&mut m, self.tokens[self.current_pos].lexeme.as_str());
                push_str(&mut m, "' na linha ");
                push_decimal(&mut m, line);
                push_str(&mut m, ".");
                Err(self.error(m))
            },
        }
    }

    /// The arguments of a call, the opening parenthesis already taken.
    fn arguments(&mut self) -> (r: Result<Vec<Expression>, ParseError>)
        requires
            old(self).wf(),
        ensures
            final(self).progress(old(self)),
            (match r {
                Ok(a) => Ok(exprs_view(a@)),
                Err(e) => Err(e@),
            }, final(self).state()) == g::args_loop(old(self).toks(), old(self).state(), Seq::empty()),
        decreases old(self).toks().len() - old(self).state().pos, 15nat,
    {
        let mut args: Vec<Expression> = Vec::new();
        assert(exprs_view(args@) =~= Seq::empty());
        loop
            invariant
                self.progress(old(self)),
                g::args_loop(old(self).toks(), old(self).state(), Seq::empty()) == g::args_loop(
                    self.toks(),
                    self.state(),
                    exprs_view(args@),
                ),
            decreases self.toks().len() - self.state().pos,
        {
            proof {
                lemma_exprs_view_len(args@);
            }
            if self.check(&TokenType::RightParen) {
                return Ok(args);
            }
            if args.len() > 255 {
                self.error(string_of("Não é possível ter mais de 255 argumentos."));
            }
            let e = self.expression()?;
            proof {
                lemma_exprs_view_push(args@, e);
            }
            args.push(e);
            if !self.check(&TokenType::Comma) {
                return Ok(args);
            }
            self.advance();
        }
    }

    pub fn call(&mut self) -> (r: Result<Expression, ParseError>)
        requires
            old(self).wf(),
        ensures
            final(self).progress(old(self)),
            (result_view(r), final(self).state()) == g::parse_call(old(self).toks(), old(self).state()),
        decreases old(self).toks().len() - old(self).state().pos, 4nat,
    {
        let mut callee = self.primary()?;
        while self.check(&TokenType::LeftParen) || self.check(&TokenType::Dot)
            invariant
                self.progress(old(self)),
                g::parse_call(old(self).toks(), old(self).state()) == g::call_loop(
                    self.toks(),
                    self.state(),
                    expr_view(callee),
                ),
            decreases self.toks().len() - self.state().pos,
        {
            if self.check(&TokenType::LeftParen) {
                self.advance();
                let args = self.arguments()?;
                if !self.check(&TokenType::RightParen) {
                    let m = self.expected("Esperava ')' após argumentos, mas encontrei '");
                    return Err(self.error(m));
                }
                let paren = self.tokens[self.current_pos].duplicate();
                self.advance();
                callee = Expression::Call(Box::new(callee), args, paren);
            } else {
                self.advance();
                match self.tokens[self.current_pos].token_type {
                    TokenType::Identifier(_) => {
                        callee = Expression::Get(Box::new(callee), self.tokens[self.current_pos].duplicate());
                        self.advance();
                    },
                    _ => {
                        let m = self.expected("Esperava nome de propriedade após '.', mas encontrei '");
                        return Err(self.error(m));
                    },
                }
            }
        }
        Ok(callee)
    }

    pub fn unary(&mut self) -> (r: Result<Expression, ParseError>)
        requires
            old(self).wf(),
        ensures
            final(self).progress(old(self)),
            (result_view(r), final(self).state()) == g::parse_unary(old(self).toks(), old(self).state()),
        decreases old(self).toks().len() - old(self).state().pos, 5nat,
    {
        let line = self.tokens[self.current_pos].line;
        match self.tokens[self.current_pos].token_type {
            TokenType::Bang => {
                self.advance();
                let operand = self.unary()?;
                Ok(Expression::Unary(UnaryOp::Bang, line, Box::new(operand)))
            },
            TokenType::Minus => {
                self.advance();
                let operand = self.unary()?;
                Ok(Expression::Unary(UnaryOp::Minus, line, Box::new(operand)))
            },
            _ => self.call(),
        }
    }

    pub fn factor(&mut self) -> (r: Result<Expression, ParseError>)
        requires
            old(self).wf(),
        ensures
            final(self).progress(old(self)),
            (result_view(r), final(self).state()) == g::parse_binary(old(self).toks(), old(self).state(), Level::Factor),
        decreases old(self).toks().len() - old(self).state().pos, 6nat,
    {
        let mut left = self.unary()?;
        while self.check(&TokenType::Slash) || self.check(&TokenType::Star)
            invariant
                self.progress(old(self)),
                g::parse_binary(old(self).toks(), old(self).state(), Level::Factor) == g::binary_loop(
                    self.toks(),
                    self.state(),
                    expr_view(left),
                    Level::Factor,
                ),
            decreases self.toks().len() - self.state().pos,
        {
            let line = self.tokens[self.current_pos].line;
            let operator = if self.check(&TokenType::Slash) { BinaryOp::Slash } else { BinaryOp::Star };
            self.advance();
            let right = self.unary()?;
            left = Expression::Binary(Box::new(left), operator, line, Box::new(right));
        }
        Ok(left)
    }

    pub fn term(&mut self) -> (r: Result<Expression, ParseError>)
        requires
            old(self).wf(),
        ensures
            final(self).progress(old(self)),
            (result_view(r), final(self).state()) == g::parse_binary(old(self).toks(), old(self).state(), Level::Term),
        decreases old(self).toks().len() - old(self).state().pos, 7nat,
    {
        let mut left = self.factor()?;
        while self.check(&TokenType::Plus) || self.check(&TokenType::Minus)
            invariant
                self.progress(old(self)),
                g::parse_binary(old(self).toks(), old(self).state(), Level::Term) == g::binary_loop(
                    self.toks(),
                    self.state(),
                    expr_view(left),
                    Level::Term,
                ),
            decreases self.toks().len() - self.state().pos,
        {
            let line = self.tokens[self.current_pos].line;
            let operator = if self.check(&TokenType::Plus) { BinaryOp::Plus } else { BinaryOp::Minus };
            self.advance();
            let right = self.factor()?;
            left = Expression::Binary(Box::new(left), operator, line, Box::new(right));
        }
        Ok(left)
    }

    pub fn comparison(&mut self) -> (r: Result<Expression, ParseError>)
        requires
            old(self).wf(),
        ensures
            final(self).progress(old(self)),
            (result_view(r), final(self).state()) == g::parse_binary(old(self).toks(), old(self).state(), Level::Comparison),
        decreases old(self).toks().len() - old(self).state().pos, 8nat,
    {
        let mut left = self.term()?;
        while self.check(&TokenType::Greater) || self.check(&TokenType::Less) || self.check(&TokenType::GreaterEqual) || self.check(&TokenType::LessEqual)
            invariant
                self.progress(old(self)),
                g::parse_binary(old(self).toks(), old(self).state(), Level::Comparison) == g::binary_loop(
                    self.toks(),
                    self.state(),
                    expr_view(left),
                    Level::Comparison,
                ),
            decreases self.toks().len() - self.state().pos,
        {
            let line = self.tokens[self.current_pos].line;
            let operator = if self.check(&TokenType::Greater) { BinaryOp::Greater } else if self.check(&TokenType::Less) { BinaryOp::Less } else if self.check(&TokenType::GreaterEqual) { BinaryOp::GreaterEqual } else { BinaryOp::LessEqual };
            self.advance();
            let right = self.term()?;
            left = Expression::Binary(Box::new(left), operator, line, Box::new(right));
        }
        Ok(left)
    }

    pub fn equality(&mut self) -> (r: Result<Expression, ParseError>)
        requires
            old(self).wf(),
        ensures
            final(self).progress(old(self)),
            (result_view(r), final(self).state()) == g::parse_binary(old(self).toks(), old(self).state(), Level::Equality),
        decreases old(self).toks().len() - old(self).state().pos, 9nat,
    {
        let mut left = self.comparison()?;
        while self.check(&TokenType::EqualEqual) || self.check(&TokenType::BangEqual)
            invariant
                self.progress(old(self)),
                g::parse_binary(old(self).toks(), old(self).state(), Level::Equality) == g::binary_loop(
                    self.toks(),
                    self.state(),
                    expr_view(left),
                    Level::Equality,
                ),
            decreases self.toks().len() - self.state().pos,
        {
            let line = self.tokens[self.current_pos].line;
            let operator = if self.check(&TokenType::EqualEqual) { BinaryOp::EqualEqual } else { BinaryOp::BangEqual };
            self.advance();
            let right = self.comparison()?;
            left = Expression::Binary(Box::new(left), operator, line, Box::new(right));
        }
        Ok(left)
    }

    pub fn and(&mut self) -> (r: Result<Expression, ParseError>)
        requires
            old(self).wf(),
        ensures
            final(self).progress(old(self)),
            (result_view(r), final(self).state()) == g::parse_logical(old(self).toks(), old(self).state(), Level::And),
        decreases old(self).toks().len() - old(self).state().pos, 10nat,
    {
        let mut left = self.equality()?;
        while self.check(&TokenType::And)
            invariant
                self.progress(old(self)),
                g::parse_logical(old(self).toks(), old(self).state(), Level::And) == g::logical_loop(
                    self.toks(),
                    self.state(),
                    expr_view(left),
                    Level::And,
                ),
            decreases self.toks().len() - self.state().pos,
        {
            let line = self.tokens[self.current_pos].line;
            self.advance();
            let right = self.equality()?;
            left = Expression::Logical(Box::new(left), LogicalOp::And, line, Box::new(right));
        }
        Ok(left)
    }

    pub fn or(&mut self) -> (r: Result<Expression, ParseError>)
        requires
            old(self).wf(),
        ensures
            final(self).progress(old(self)),
            (result_view(r), final(self).state()) == g::parse_logical(old(self).toks(), old(self).state(), Level::Or),
        decreases old(self).toks().len() - old(self).state().pos, 11nat,
    {
        let mut left = self.and()?;
        while self.check(&TokenType::Or)
            invariant
                self.progress(old(self)),
                g::parse_logical(old(self).toks(), old(self).state(), Level::Or) == g::logical_loop(
                    self.toks(),
                    self.state(),
                    expr_view(left),
                    Level::Or,
                ),
            decreases self.toks().len() - self.state().pos,
        {
            let line = self.tokens[self.current_pos].line;
            self.advance();
            let right = self.and()?;
            left = Expression::Logical(Box::new(left), LogicalOp::Or, line, Box::new(right));
        }
        Ok(left)
    }

    pub fn assigment(&mut self) -> (r: Result<Expression, ParseError>)
        requires
            old(self).wf(),
        ensures
            final(self).progress(old(self)),
            (result_view(r), final(self).state()) == g::parse_assignment(old(self).toks(), old(self).state()),
        decreases old(self).toks().len() - old(self).state().pos, 12nat,
    {
        let expr = self.or()?;
        if self.check(&TokenType::Equal) {
            self.advance();
            match expr {
                Expression::Variable(name, line, _id) => {
                    let assign_id = next_id(&mut self.ids);
                    let value = self.assigment()?;
                    return Ok(Expression::Assign(name, line, Box::new(value), assign_id));
                },
                Expression::Get(object, name) => {
                    let value = self.assigment()?;
                    return Ok(Expression::SetProperty(object, name, Box::new(value)));
                },
                _ => {
                    return Err(self.error(string_of("Alvo de atribuição inválido.")));
                },
            }
        }
        Ok(expr)
    }

    pub fn expression(&mut self) -> (r: Result<Expression, ParseError>)
        requires
            old(self).wf(),
        ensures
            final(self).progress(old(self)),
            (result_view(r), final(self).state()) == g::parse_assignment(old(self).toks(), old(self).state()),
        decreases old(self).toks().len() - old(self).state().pos, 14nat,
    {
        self.assigment()
    }
}

} // verus!
