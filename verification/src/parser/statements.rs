use vstd::prelude::*;

use crate::expr::{expr_view, Expression};
use crate::stmt::{lemma_stmts_view_push, names_view, stmt_view, stmts_view, Statement, StmtView};
use crate::text::string_of;
use crate::token::TokenType;
use super::{Parser, ParseError, errors_view};
use super::grammar::{ParseErrorView, PState, Level};
use super::grammar as g;

verus! {

pub open spec fn stmt_result_view(r: Result<Statement, ParseError>) -> Result<StmtView, ParseErrorView> {
    match r {
        Ok(x) => Ok(stmt_view(x)),
        Err(e) => Err(e@),
    }
}

pub open spec fn opt_stmt_view(r: Option<Statement>) -> Option<StmtView> {
    match r {
        Some(x) => Some(stmt_view(x)),
        None => None,
    }
}

impl Parser {
    /// Error recovery: skips to the start of the next statement.
    fn synchronize(&mut self)
        requires
            old(self).wf(),
        ensures
            final(self).progress(old(self)),
            final(self).state() == g::synchronize(old(self).toks(), old(self).state()),
            !g::at_end(old(self).toks(), old(self).state()) ==> old(self).state().pos < final(self).state().pos,
    {
        if self.is_at_end() {
            return;
        }
        self.advance();
        while !self.is_at_end()
            invariant
                self.progress(old(self)),
                old(self).state().pos < self.state().pos,
                g::synchronize(old(self).toks(), old(self).state()) == g::sync_loop(self.toks(), self.state()),
            decreases self.toks().len() - self.state().pos,
        {
            match self.tokens[self.current_pos].token_type {
                TokenType::If | TokenType::While | TokenType::For | TokenType::Return | TokenType::Var
                | TokenType::Print => {
                    return;
                },
                _ => {
                    self.advance();
                },
            }
        }
    }

    pub fn print_statement(&mut self) -> (r: Result<Statement, ParseError>)
        requires
            old(self).wf(),
            old(self).state().pos + 1 < old(self).toks().len(),
        ensures
            final(self).progress(old(self)),
            !g::at_end(old(self).toks(), old(self).state()) ==> old(self).state().pos < final(self).state().pos,
            (stmt_result_view(r), final(self).state()) == g::print_stmt(old(self).toks(), old(self).state()),
        decreases old(self).toks().len() - old(self).state().pos, 29nat,
    {
        self.advance();
        let value = self.expression()?;
        if self.check(&TokenType::Semicolon) {
            self.advance();
            Ok(Statement::Print(value))
        } else {
            let m = self.expected("Esperava ';' após o valor do print, mas encontrei '");
            Err(self.error(m))
        }
    }

    pub fn expr_statement(&mut self) -> (r: Result<Statement, ParseError>)
        requires
            old(self).wf(),
        ensures
            final(self).progress(old(self)),
            r is Ok ==> old(self).state().pos < final(self).state().pos,
            (stmt_result_view(r), final(self).state()) == g::expr_stmt(old(self).toks(), old(self).state()),
        decreases old(self).toks().len() - old(self).state().pos, 29nat,
    {
        let expr = self.expression()?;
        if self.check(&TokenType::Semicolon) {
            self.advance();
            Ok(Statement::ExprStatement(expr))
        } else {
            let m = self.expected("Esperava ';' após expressão, mas encontrei '");
            Err(self.error(m))
        }
    }

    pub fn var_statement(&mut self) -> (r: Result<Statement, ParseError>)
        requires
            old(self).wf(),
            old(self).state().pos + 1 < old(self).toks().len(),
        ensures
            final(self).progress(old(self)),
            !g::at_end(old(self).toks(), old(self).state()) ==> old(self).state().pos < final(self).state().pos,
            (stmt_result_view(r), final(self).state()) == g::var_stmt(old(self).toks(), old(self).state()),
        decreases old(self).toks().len() - old(self).state().pos, 29nat,
    {
        self.advance();
        let name: String;
        let line = self.tokens[self.current_pos].line;
        match &self.tokens[self.current_pos].token_type {
            TokenType::Identifier(identifier) => name = identifier.clone(),
            _ => {
                let m = self.expected("Esperava nome de variável após 'var', mas encontrei '");
                return Err(self.error(m));
            },
        }
        self.advance();
        let initializer: Option<Expression>;
        match self.tokens[self.current_pos].token_type {
            TokenType::Equal => {
                self.advance();
                initializer = Some(self.expression()?);
            },
            _ => initializer = None,
        }
        if self.check(&TokenType::Semicolon) {
            self.advance();
            Ok(Statement::Var(name, initializer, line))
        } else {
            let m = self.expected("Esperava ';' após declaração de variável, mas encontrei '");
            Err(self.error(m))
        }
    }

    pub fn statement(&mut self) -> (r: Option<Statement>)
        requires
            old(self).wf(),
        ensures
            final(self).progress(old(self)),
            !g::at_end(old(self).toks(), old(self).state()) ==> old(self).state().pos < final(self).state().pos,
            (opt_stmt_view(r), final(self).state()) == g::statement(old(self).toks(), old(self).state()),
        decreases old(self).toks().len() - old(self).state().pos, 30nat,
    {
        match self.tokens[self.current_pos].token_type {
            TokenType::Print => match self.print_statement() {
                Ok(stmt) => Some(stmt),
                Err(_) => {
                    self.synchronize();
                    None
                },
            },
            TokenType::Var => match self.var_statement() {
                Ok(stmt) => Some(stmt),
                Err(_) => {
                    self.synchronize();
                    None
                },
            },
            TokenType::LeftBrace => self.block_statement(),
            TokenType::If => self.if_statement(),
            TokenType::While => self.while_statement(),
            TokenType::For => self.for_statement(),
            TokenType::Function => self.function_statement(),
            TokenType::Return => self.return_statement(),
            _ => match self.expr_statement() {
                Ok(stmt) => Some(stmt),
                Err(_) => {
                    self.synchronize();
                    None
                },
            },
        }
    }

    /// A block; the opening token is taken without looking at it. When that
    /// token is the last one, the parser has run out of tokens: it records
    /// this, stays where it is and yields nothing.
    pub fn block_statement(&mut self) -> (r: Option<Statement>)
        requires
            old(self).wf(),
        ensures
            final(self).progress(old(self)),
            !g::at_end(old(self).toks(), old(self).state()) ==> old(self).state().pos < final(self).state().pos,
            (opt_stmt_view(r), final(self).state()) == g::block_stmt(old(self).toks(), old(self).state()),
        decreases old(self).toks().len() - old(self).state().pos, 29nat,
    {
        if self.current_pos >= self.tokens.len() - 1 {
            self.overrun = true;
            return None;
        }
        self.advance();
        let mut body: Vec<Statement> = Vec::new();
        assert(stmts_view(body@) =~= Seq::empty());
        while !self.check(&TokenType::RightBrace) && !self.is_at_end()
            invariant
                self.progress(old(self)),
                old(self).state().pos < self.state().pos,
                g::block_loop(old(self).toks(), g::adv(old(self).state()), Seq::empty()) == g::block_loop(
                    self.toks(),
                    self.state(),
                    stmts_view(body@),
                ),
            decreases self.toks().len() - self.state().pos,
        {
            match self.statement() {
                Some(stmt) => {
                    proof {
                        lemma_stmts_view_push(body@, stmt);
                    }
                    body.push(stmt);
                },
                None => return None,
            }
        }
        if self.is_at_end() {
            self.error(string_of("Bloco não fechado — esperava '}'."));
            return None;
        }
        self.advance();
        Some(Statement::Block(body))
    }

    pub fn if_statement(&mut self) -> (r: Option<Statement>)
        requires
            old(self).wf(),
            old(self).state().pos + 1 < old(self).toks().len(),
        ensures
            final(self).progress(old(self)),
            !g::at_end(old(self).toks(), old(self).state()) ==> old(self).state().pos < final(self).state().pos,
            (opt_stmt_view(r), final(self).state()) == g::if_stmt(old(self).toks(), old(self).state()),
        decreases old(self).toks().len() - old(self).state().pos, 29nat,
    {
        self.advance();
        if !self.check(&TokenType::LeftParen) {
            let m = self.expected("Esperava '(' após 'if', mas encontrei '");
            self.error(m);
            self.synchronize();
            return None;
        }
        self.advance();
        let condition = match self.expression() {
            Ok(condition) => condition,
            Err(_) => {
                self.synchronize();
                return None;
            },
        };
        if !self.check(&TokenType::RightParen) {
            let m = self.expected("Esperava ')' após condição do 'if', mas encontrei '");
            self.error(m);
            self.synchronize();
            return None;
        }
        self.advance();
        let then_branch = match self.statement() {
            Some(stmt) => stmt,
            None => return None,
        };
        if self.check(&TokenType::Else) {
            self.advance();
            match self.statement() {
                Some(else_branch) => Some(
                    Statement::If(condition, Box::new(then_branch), Some(Box::new(else_branch))),
                ),
                None => None,
            }
        } else {
            Some(Statement::If(condition, Box::new(then_branch), None))
        }
    }

    pub fn while_statement(&mut self) -> (r: Option<Statement>)
        requires
            old(self).wf(),
            old(self).state().pos + 1 < old(self).toks().len(),
        ensures
            final(self).progress(old(self)),
            !g::at_end(old(self).toks(), old(self).state()) ==> old(self).state().pos < final(self).state().pos,
            (opt_stmt_view(r), final(self).state()) == g::while_stmt(old(self).toks(), old(self).state()),
        decreases old(self).toks().len() - old(self).state().pos, 29nat,
    {
        self.advance();
        if !self.check(&TokenType::LeftParen) {
            let m = self.expected("Esperava '(' após 'while', mas encontrei '");
            self.error(m);
            self.synchronize();
            return None;
        }
        self.advance();
        let condition = match self.expression() {
            Ok(condition) => condition,
            Err(_) => {
                self.synchronize();
                return None;
            },
        };
        if !self.check(&TokenType::RightParen) {
            let m = self.expected("Esperava ')' após condição do 'while', mas encontrei '");
            self.error(m);
            self.synchronize();
            return None;
        }
        self.advance();
        match self.statement() {
            Some(body) => Some(Statement::While(condition, Box::new(body))),
            None => None,
        }
    }

    /// The initializer clause of a `for`; `Err` when it failed (after recovery).
    fn for_initializer(&mut self) -> (r: Result<Option<Statement>, ()>)
        requires
            old(self).wf(),
        ensures
            final(self).progress(old(self)),
            (match r {
                Ok(i) => Ok(opt_stmt_view(i)),
                Err(_) => Err(()),
            }, final(self).state()) == g::for_init(old(self).toks(), old(self).state()),
            r is Ok ==> old(self).state().pos < final(self).state().pos,
        decreases old(self).toks().len() - old(self).state().pos, 28nat,
    {
        match self.tokens[self.current_pos].token_type {
            TokenType::Var => match self.var_statement() {
                Ok(stmt) => Ok(Some(stmt)),
                Err(_) => {
                    self.synchronize();
                    Err(())
                },
            },
            TokenType::Semicolon => {
                self.advance();
                Ok(None)
            },
            _ => match self.expr_statement() {
                Ok(stmt) => Ok(Some(stmt)),
                Err(_) => {
                    self.synchronize();
                    Err(())
                },
            },
        }
    }

    /// The block that a `for` loop stands for.
    fn desugar_for(
        initializer: Option<Statement>,
        condition: Expression,
        increment: Expression,
        body: Statement,
    ) -> (r: Statement)
        ensures
            stmt_view(r) == g::desugar_for(
                opt_stmt_view(initializer),
                expr_view(condition),
                expr_view(increment),
                stmt_view(body),
            ),
    {
        let ghost bv = stmt_view(body);
        let ghost iv = expr_view(increment);
        let mut inner: Vec<Statement> = Vec::new();
        proof {
            lemma_stmts_view_push(inner@, body);
        }
        inner.push(body);
        let inc = Statement::ExprStatement(increment);
        proof {
            lemma_stmts_view_push(inner@, inc);
        }
        inner.push(inc);
        assert(stmts_view(inner@) =~= seq![bv, StmtView::ExprStatement(iv)]);
        let ghost cv = expr_view(condition);
        let blk = Statement::Block(inner);
        assert(stmt_view(blk) == StmtView::Block(seq![bv, StmtView::ExprStatement(iv)]));
        let looped = Statement::While(condition, Box::new(blk));
        let mut outer: Vec<Statement> = Vec::new();
        let ghost lv = stmt_view(looped);
        assert(lv == StmtView::While(
            cv,
            Box::new(StmtView::Block(seq![bv, StmtView::ExprStatement(iv)])),
        ));
        match initializer {
            Some(init) => {
                let ghost v0 = stmt_view(init);
                proof {
                    lemma_stmts_view_push(outer@, init);
                }
                outer.push(init);
                proof {
                    lemma_stmts_view_push(outer@, looped);
                }
                outer.push(looped);
                assert(stmts_view(outer@) =~= seq![v0, lv]);
            },
            None => {
                proof {
                    lemma_stmts_view_push(outer@, looped);
                }
                outer.push(looped);
                assert(stmts_view(outer@) =~= seq![lv]);
            },
        }
        Statement::Block(outer)
    }

    pub fn for_statement(&mut self) -> (r: Option<Statement>)
        requires
            old(self).wf(),
            old(self).state().pos + 1 < old(self).toks().len(),
        ensures
            final(self).progress(old(self)),
            !g::at_end(old(self).toks(), old(self).state()) ==> old(self).state().pos < final(self).state().pos,
            (opt_stmt_view(r), final(self).state()) == g::for_stmt(old(self).toks(), old(self).state()),
        decreases old(self).toks().len() - old(self).state().pos, 29nat,
    {
        self.advance();
        if !self.check(&TokenType::LeftParen) {
            let m = self.expected("Esperava '(' após 'for', mas encontrei '");
            self.error(m);
            self.synchronize();
            return None;
        }
        self.advance();
        let initializer = match self.for_initializer() {
            Ok(i) => i,
            Err(_) => return None,
        };
        let condition = match self.expression() {
            Ok(condition) => condition,
            Err(_) => {
                self.synchronize();
                return None;
            },
        };
        if !self.check(&TokenType::Semicolon) {
            let m = self.expected("Esperava ';' após condição do 'for', mas encontrei '");
            self.error(m);
            self.synchronize();
            return None;
        }
        self.advance();
        let increment = match self.expression() {
            Ok(increment) => increment,
            Err(_) => {
                self.synchronize();
                return None;
            },
        };
        if !self.check(&TokenType::RightParen) {
            let m = self.expected("Esperava ')' após incremento do 'for', mas encontrei '");
            self.error(m);
            self.synchronize();
            return None;
        }
        self.advance();
        match self.statement() {
            Some(body) => Some(Self::desugar_for(initializer, condition, increment, body)),
            None => None,
        }
    }

    pub fn function_statement(&mut self) -> (r: Option<Statement>)
        requires
            old(self).wf(),
            old(self).state().pos + 1 < old(self).toks().len(),
        ensures
            final(self).progress(old(self)),
            !g::at_end(old(self).toks(), old(self).state()) ==> old(self).state().pos < final(self).state().pos,
            (opt_stmt_view(r), final(self).state()) == g::function_stmt(old(self).toks(), old(self).state()),
        decreases old(self).toks().len() - old(self).state().pos, 29nat,
    {
        self.advance();
        let name: String;
        let line = self.tokens[self.current_pos].line;
        match &self.tokens[self.current_pos].token_type {
            TokenType::Identifier(identifier) => name = identifier.clone(),
            _ => {
                let m = self.expected("Esperava um nome, mas encontrei '");
                self.error(m);
                return None;
            },
        }
        let mut params: Vec<String> = Vec::new();
        self.advance();
        match self.tokens[self.current_pos].token_type {
            TokenType::LeftParen => {
                self.advance();
                let ghost s_params = self.state();
                assert(names_view(params@) =~= Seq::empty());
                while !self.check(&TokenType::RightParen)
                    invariant
                        self.progress(old(self)),
                        old(self).state().pos < self.state().pos,
                        g::param_loop(self.toks(), s_params, Seq::empty()) == g::param_loop(
                            self.toks(),
                            self.state(),
                            names_view(params@),
                        ),
                        s_params == g::adv(g::adv(g::adv(old(self).state()))),
                        g::tok(old(self).toks(), g::adv(old(self).state())).token_type == TokenType::Identifier(name),
                        g::tok(old(self).toks(), g::adv(old(self).state())).line == line,
                        g::kind(old(self).toks(), g::adv(g::adv(old(self).state()))) is LeftParen,
                    decreases self.toks().len() - self.state().pos,
                {
                    match &self.tokens[self.current_pos].token_type {
                        TokenType::Identifier(param) => {
                            let param = param.clone();
                            proof {
                                assert(names_view(params@.push(param)) =~= names_view(params@).push(param@));
                            }
                            params.push(param);
                            self.advance();
                            if self.check(&TokenType::Comma) {
                                self.advance();
                            } else if !self.check(&TokenType::RightParen) {
                                let m = self.expected("Esperava ',' ou ')' após parâmetro, mas encontrei '");
                                self.error(m);
                                return None;
                            }
                        },
                        _ => {
                            let m = self.expected("Esperava um nome de parâmetro, mas encontrei '");
                            self.error(m);
                            return None;
                        },
                    }
                }
                self.advance();
                match self.block_statement() {
                    Some(Statement::Block(stmts)) => {
                        return Some(Statement::Function(name, params, stmts, line));
                    },
                    _ => return None,
                }
            },
            _ => {
                let m = self.expected("Esperava '(' após nome da função, mas encontrei '");
                self.error(m);
                return None;
            },
        }
    }

    fn return_statement(&mut self) -> (r: Option<Statement>)
        requires
            old(self).wf(),
            old(self).state().pos + 1 < old(self).toks().len(),
        ensures
            final(self).progress(old(self)),
            !g::at_end(old(self).toks(), old(self).state()) ==> old(self).state().pos < final(self).state().pos,
            (opt_stmt_view(r), final(self).state()) == g::return_stmt(old(self).toks(), old(self).state()),
        decreases old(self).toks().len() - old(self).state().pos, 29nat,
    {
        self.advance();
        if self.check(&TokenType::Semicolon) {
            self.advance();
            return Some(Statement::Return(self.tokens[self.current_pos].line, None));
        } else {
            match self.expression() {
                Ok(expr) => {
                    let stmt = Some(Statement::Return(self.tokens[self.current_pos].line, Some(expr)));
                    if self.check(&TokenType::Semicolon) {
                        self.advance();
                        return stmt;
                    }
                    let m = self.expected("Esperava ';' após retorno, mas encontrei '");
                    self.error(m);
                    return None;
                },
                Err(_e) => {
                    let m = self.expected("Esperava um valor válido de retorno, mas encontrei '");
                    self.error(m);
                    return None;
                },
            }
        }
    }

    /// Parses statements until the end-of-file token; statements that fail
    /// are left out and their errors are in `errors`.
    pub fn parse(&mut self) -> (r: Vec<Statement>)
        requires
            old(self).wf(),
        ensures
            final(self).progress(old(self)),
            (stmts_view(r@), final(self).state()) == g::parse_all(old(self).toks(), old(self).state(), Seq::empty()),
            g::at_end(final(self).toks(), final(self).state()),
    {
        let mut statements: Vec<Statement> = Vec::new();
        assert(stmts_view(statements@) =~= Seq::empty());
        while !self.is_at_end()
            invariant
                self.progress(old(self)),
                g::parse_all(old(self).toks(), old(self).state(), Seq::empty()) == g::parse_all(
                    self.toks(),
                    self.state(),
                    stmts_view(statements@),
                ),
            decreases self.toks().len() - self.state().pos,
        {
            if let Some(stmt) = self.statement() {
                proof {
                    lemma_stmts_view_push(statements@, stmt);
                }
                statements.push(stmt);
            }
        }
        statements
    }
}

} // verus!
