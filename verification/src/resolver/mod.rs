pub mod rules;

use std::collections::HashMap;
use vstd::prelude::*;

use crate::expr::{expr_view, exprs_view, lemma_exprs_view_index, Expression};
use crate::stmt::{lemma_stmts_view_index, names_view, stmt_view, stmts_view, Statement};
use crate::text::{push_str, string_of};
use crate::token::Token;
use self::rules::{ResolveErrorView, RState};
use self::rules as r;

verus! {

broadcast use vstd::std_specs::hash::group_hash_axioms;

/// A problem found while resolving names, with the line it concerns.
#[derive(Debug, PartialEq, Clone)]
pub struct ResolveError {
    pub line: u64,
    pub message: String,
}

impl View for ResolveError {
    type V = ResolveErrorView;

    open spec fn view(&self) -> ResolveErrorView {
        ResolveErrorView { line: self.line, message: self.message@ }
    }
}

impl ResolveError {
    pub fn new(line: u64, message: String) -> (e: ResolveError)
        ensures
            e.line == line,
            e.message == message,
    {
        ResolveError { line, message }
    }
}

/// What kind of function body the resolver is inside.
#[derive(Debug, PartialEq, Eq, Structural, Clone, Copy)]
pub enum IsFunction {
    Function,
    Initializer,
    /// Outside any function body.
    NoFunction,
}

/// What kind of class body the resolver is inside.
#[derive(Debug, PartialEq, Eq, Structural, Clone, Copy)]
pub enum IsClass {
    Class,
    Subclass,
    /// Outside any class body.
    NoClass,
}

pub open spec fn outcome_view(res: Result<(), ResolveError>) -> Result<(), ResolveErrorView> {
    match res {
        Ok(()) => Ok(()),
        Err(e) => Err(e@),
    }
}

/// A scope as a map: each entry sets its name, later entries winning.
pub open spec fn scope_view(v: Seq<(String, bool)>) -> Map<Seq<char>, bool>
    decreases v.len(),
{
    if v.len() == 0 {
        Map::empty()
    } else {
        scope_view(v.drop_last()).insert(v.last().0@, v.last().1)
    }
}

pub open spec fn scopes_view(v: Seq<Vec<(String, bool)>>) -> Seq<Map<Seq<char>, bool>> {
    v.map_values(|s: Vec<(String, bool)>| scope_view(s@))
}

/// Works out, for each use of a name, how many scopes out its declaration is.
pub struct Resolver {
    locals: HashMap<usize, usize>,
    scopes: Vec<Vec<(String, bool)>>,
    is_function: IsFunction,
    is_class: IsClass,
}

impl Resolver {
    pub closed spec fn state(&self) -> RState {
        RState {
            scopes: scopes_view(self.scopes@),
            locals: self.locals@,
            is_function: self.is_function,
            is_class: self.is_class,
        }
    }

    /// A resolver at the global level, outside any function or class, with nothing recorded.
    pub fn new() -> (res: Resolver)
        ensures
            res.state() == (RState {
                scopes: Seq::empty(),
                locals: Map::empty(),
                is_function: IsFunction::NoFunction,
                is_class: IsClass::NoClass,
            }),
    {
        let res = Resolver {
            locals: HashMap::new(),
            scopes: Vec::new(),
            is_function: IsFunction::NoFunction,
            is_class: IsClass::NoClass,
        };
        assert(scopes_view(res.scopes@) =~= Seq::empty());
        res
    }

    /// The depths recorded so far, by expression identifier.
    pub fn locals(&self) -> (m: &HashMap<usize, usize>)
        ensures
            m@ == self.state().locals,
    {
        &self.locals
    }

    /// The depths recorded, for the evaluator to look names up by.
    pub fn into_locals(self) -> (m: HashMap<usize, usize>)
        ensures
            m@ == self.state().locals,
    {
        self.locals
    }

    pub fn begin_scope(&mut self)
        ensures
            final(self).state() == r::begin(old(self).state()),
    {
        self.scopes.push(Vec::new());
        proof {
            assert(scope_view(Seq::<(String, bool)>::empty()) == Map::<Seq<char>, bool>::empty());
            assert(scopes_view(self.scopes@) =~= scopes_view(old(self).scopes@).push(Map::empty()));
        }
    }

    pub fn end_scope(&mut self)
        ensures
            final(self).state() == r::end(old(self).state()),
    {
        self.scopes.pop();
        proof {
            if old(self).scopes@.len() > 0 {
                assert(scopes_view(self.scopes@) =~= scopes_view(old(self).scopes@).drop_last());
            }
        }
    }

    /// Sets `name` to `ready` in the innermost scope, if there is one.
    fn put(&mut self, name: String, ready: bool)
        ensures
            final(self).state() == r::put(old(self).state(), name@, ready),
    {
        if self.scopes.len() > 0 {
            let mut last = self.scopes.pop().unwrap();
            let ghost before = last@;
            last.push((name, ready));
            proof {
                assert(last@.drop_last() =~= before);
            }
            self.scopes.push(last);
            proof {
                assert(scopes_view(self.scopes@) =~= scopes_view(old(self).scopes@).update(
                    old(self).scopes@.len() - 1,
                    scopes_view(old(self).scopes@).last().insert(name@, ready),
                ));
            }
        }
    }

    /// The value the scope gives `name`, if any.
    fn lookup(scope: &Vec<(String, bool)>, name: &String) -> (res: Option<bool>)
        ensures
            res == (if scope_view(scope@).contains_key(name@) {
                Some(scope_view(scope@)[name@])
            } else {
                None
            }),
    {
        let mut i = scope.len();
        assert(scope@.take(i as int) =~= scope@);
        while i > 0
            invariant
                0 <= i <= scope@.len(),
                scope_view(scope@.take(i as int)).contains_key(name@) == scope_view(scope@).contains_key(name@),
                scope_view(scope@).contains_key(name@) ==> scope_view(scope@.take(i as int))[name@]
                    == scope_view(scope@)[name@],
            decreases i,
        {
            assert(scope@.take(i as int).drop_last() =~= scope@.take(i - 1));
            if scope[i - 1].0.eq(name) {
                return Some(scope[i - 1].1);
            }
            i = i - 1;
        }
        assert(scope_view(scope@.take(0)) == Map::<Seq<char>, bool>::empty());
        None
    }

    pub fn declare(&mut self, name: String, line: u64) -> (res: Result<(), ResolveError>)
        ensures
            (outcome_view(res), final(self).state()) == r::declare(old(self).state(), name@, line),
    {
        let n = self.scopes.len();
        if n > 0 {
            if Self::lookup(&self.scopes[n - 1], &name).is_some() {
                let mut m = string_of("Variável '");
                push_str(&mut m, name.as_str());
                push_str(&mut m, "' já foi declarada neste escopo. Use um nome diferente.");
                return Err(ResolveError::new(line, m));
            }
        }
        self.put(name, false);
        Ok(())
    }

    pub fn define(&mut self, name: String)
        ensures
            final(self).state() == r::define(old(self).state(), name@),
    {
        self.put(name, true);
    }

    /// Records how many scopes out `name` is declared, for the expression `id`.
    pub fn resolve_local(&mut self, id: usize, name: &str)
        ensures
            final(self).state() == r::resolve_local(old(self).state(), id, name@),
    {
        let key = string_of(name);
        let n = self.scopes.len();
        let ghost sv = scopes_view(self.scopes@);
        let mut i = n;
        assert(sv.take(n as int) =~= sv);
        while i > 0
            invariant
                self == old(self),
                n == self.scopes@.len(),
                sv == scopes_view(self.scopes@),
                key@ == name@,
                0 <= i <= n,
                r::innermost(sv, key@) == r::innermost(sv.take(i as int), key@),
            decreases i,
        {
            assert(sv.take(i as int).drop_last() =~= sv.take(i - 1));
            assert(sv[i - 1] == scope_view(self.scopes@[i - 1]@));
            if Self::lookup(&self.scopes[i - 1], &key).is_some() {
                assert(r::innermost(sv.take(i as int), key@) == Some(i - 1));
                self.locals.insert(id, n - i);
                assert(self.locals@ == old(self).locals@.insert(id, (n - i) as usize));
                return;
            }
            i = i - 1;
        }
    }

    fn visit_variable(&mut self, name: &String, line: u64, id: usize) -> (res: Result<(), ResolveError>)
        ensures
            (outcome_view(res), final(self).state()) == r::res_expr(
                crate::expr::ExprView::Variable(name@, line, id),
                old(self).state(),
            ),
    {
        let n = self.scopes.len();
        if n > 0 {
            match Self::lookup(&self.scopes[n - 1], name) {
                Some(false) => {
                    let mut m = string_of("Variável '");
                    push_str(&mut m, name.as_str());
                    push_str(&mut m, "' usada antes de ser inicializada.");
                    return Err(ResolveError::new(line, m));
                },
                _ => {},
            }
        }
        self.resolve_local(id, name.as_str());
        Ok(())
    }

    fn visit_this(&mut self, token: &Token, id: usize) -> (res: Result<(), ResolveError>)
        ensures
            (outcome_view(res), final(self).state()) == r::res_expr(
                crate::expr::ExprView::This(*token, id),
                old(self).state(),
            ),
    {
        if self.is_class == IsClass::NoClass {
            return Err(ResolveError::new(
                token.line,
                string_of("'this' só pode ser usado dentro de métodos de uma classe."),
            ));
        }
        self.resolve_local(id, "this");
        Ok(())
    }

    fn visit_super(&mut self, key_super: &Token, method: &Token, id: usize) -> (res: Result<(), ResolveError>)
        ensures
            (outcome_view(res), final(self).state()) == r::res_expr(
                crate::expr::ExprView::Super(*key_super, *method, id),
                old(self).state(),
            ),
    {
        if self.is_class == IsClass::NoClass {
            return Err(ResolveError::new(
                key_super.line,
                string_of("'super' só pode ser usado dentro de métodos de uma classe."),
            ));
        } else if self.is_class == IsClass::Class {
            return Err(ResolveError::new(
                key_super.line,
                string_of("'super' só pode ser usado em classes que herdam de outra classe."),
            ));
        }
        self.resolve_local(id, "super");
        Ok(())
    }
}

impl Resolver {
    fn resolve_expr(&mut self, e: &Expression) -> (res: Result<(), ResolveError>)
        ensures
            (outcome_view(res), final(self).state()) == r::res_expr(expr_view(*e), old(self).state()),
        decreases e, 1nat,
    {
        match e {
            Expression::Binary(left, _, _, right) => {
                self.resolve_expr(left)?;
                self.resolve_expr(right)?;
                Ok(())
            },
            Expression::Literal(_) => Ok(()),
            Expression::Unary(_, _, x) => {
                self.resolve_expr(x)?;
                Ok(())
            },
            Expression::Grouping(x) => {
                self.resolve_expr(x)?;
                Ok(())
            },
            Expression::Variable(name, line, id) => self.visit_variable(name, *line, *id),
            Expression::Assign(name, _, x, id) => {
                self.resolve_expr(x)?;
                self.resolve_local(*id, name.as_str());
                Ok(())
            },
            Expression::Logical(left, _, _, right) => {
                self.resolve_expr(left)?;
                self.resolve_expr(right)?;
                Ok(())
            },
            Expression::Call(callee, args, _) => {
                self.resolve_expr(callee)?;
                let ghost s1 = self.state();
                let ghost av = exprs_view(args@);
                proof {
                    lemma_exprs_view_index(args@);
                    assert(av.skip(0) =~= av);
                }
                let mut i: usize = 0;
                #[verifier::loop_isolation(false)]
                while i < args.len()
                    invariant
                        0 <= i <= args@.len(),
                        av == exprs_view(args@),
                        av.len() == args@.len(),
                        forall|k: int| 0 <= k < args@.len() ==> #[trigger] av[k] == expr_view(args@[k]),
                        r::res_exprs(av, s1) == r::res_exprs(av.skip(i as int), self.state()),
                    decreases args@.len() - i,
                {
                    assert(av.skip(i as int).drop_first() =~= av.skip(i + 1));
                    assert(av.skip(i as int)[0] == expr_view(args@[i as int]));
                    assert(decreases_to!(*e => args@[i as int]));
                    self.resolve_expr(&args[i])?;
                    i = i + 1;
                }
                Ok(())
            },
            Expression::Get(x, _) => {
                self.resolve_expr(x)?;
                Ok(())
            },
            Expression::SetProperty(x, _, value) => {
                self.resolve_expr(x)?;
                self.resolve_expr(value)?;
                Ok(())
            },
            Expression::This(token, id) => self.visit_this(token, *id),
            Expression::Super(key_super, method, id) => self.visit_super(key_super, method, *id),
        }
    }

    /// Declares and defines each parameter on `line`.
    fn declare_params(&mut self, params: &Vec<String>, line: u64) -> (res: Result<(), ResolveError>)
        ensures
            (outcome_view(res), final(self).state()) == r::res_params(names_view(params@), line, old(self).state()),
    {
        let ghost pv = names_view(params@);
        assert(pv.skip(0) =~= pv);
        let mut i: usize = 0;
        while i < params.len()
            invariant
                0 <= i <= params@.len(),
                pv == names_view(params@),
                r::res_params(pv, line, old(self).state()) == r::res_params(pv.skip(i as int), line, self.state()),
            decreases params@.len() - i,
        {
            assert(pv.skip(i as int).drop_first() =~= pv.skip(i + 1));
            assert(pv.skip(i as int)[0] == params@[i as int]@);
            self.declare(params[i].clone(), line)?;
            self.define(params[i].clone());
            i = i + 1;
        }
        Ok(())
    }

    fn resolve_stmt(&mut self, stmt: &Statement) -> (res: Result<(), ResolveError>)
        ensures
            (outcome_view(res), final(self).state()) == r::res_stmt(stmt_view(*stmt), old(self).state()),
        decreases stmt, 1nat,
    {
        match stmt {
            Statement::Print(e) => {
                self.resolve_expr(e)?;
                Ok(())
            },
            Statement::ExprStatement(e) => {
                self.resolve_expr(e)?;
                Ok(())
            },
            Statement::Var(name, init, line) => {
                self.declare(name.clone(), *line)?;
                match init {
                    Some(e) => {
                        self.resolve_expr(e)?;
                    },
                    None => {},
                }
                self.define(name.clone());
                Ok(())
            },
            Statement::Block(statements) => {
                self.begin_scope();
                self.resolve(statements)?;
                self.end_scope();
                Ok(())
            },
            Statement::If(condition, then_branch, else_branch) => {
                self.resolve_expr(condition)?;
                self.resolve_stmt(then_branch)?;
                match else_branch {
                    Some(e) => {
                        self.resolve_stmt(e)?;
                    },
                    None => {},
                }
                Ok(())
            },
            Statement::While(condition, body) => {
                self.resolve_expr(condition)?;
                self.resolve_stmt(body)?;
                Ok(())
            },
            Statement::Function(..) => self.visit_function(stmt),
            Statement::Return(line, value) => {
                if self.is_function == IsFunction::NoFunction {
                    return Err(ResolveError::new(
                        *line,
                        string_of("'return' só pode ser usado dentro de uma função."),
                    ));
                } else if self.is_function == IsFunction::Initializer && value.is_some() {
                    return Err(ResolveError::new(
                        *line,
                        string_of(
                            "O método 'init' não pode retornar um valor. Use 'return;' sem valor para sair cedo.",
                        ),
                    ));
                }
                match value {
                    Some(v) => {
                        self.resolve_expr(v)?;
                    },
                    None => {},
                }
                Ok(())
            },
            Statement::Class(..) => self.visit_class(stmt),
        }
    }

    fn visit_function(&mut self, function: &Statement) -> (res: Result<(), ResolveError>)
        requires
            function is Function,
        ensures
            (outcome_view(res), final(self).state()) == r::res_stmt(stmt_view(*function), old(self).state()),
        decreases function, 0nat,
    {
        match function {
            Statement::Function(name, params, stmts, line) => {
                self.declare(name.clone(), *line)?;
                self.define(name.clone());
                self.begin_scope();
                let is_fun = self.is_function;
                self.is_function = IsFunction::Function;
                self.declare_params(params, *line)?;
                self.resolve(stmts)?;
                self.is_function = is_fun;
                self.end_scope();
                Ok(())
            },
            _ => Ok(()),
        }
    }

    /// Resolves the methods of a class body; other statements there are passed over.
    fn resolve_methods(&mut self, statements: &Vec<Statement>, line: u64) -> (res: Result<(), ResolveError>)
        ensures
            (outcome_view(res), final(self).state()) == r::res_methods(stmts_view(statements@), line, old(self).state()),
        decreases statements@, 1nat,
    {
        let ghost sv = stmts_view(statements@);
        proof {
            lemma_stmts_view_index(statements@);
            assert(sv.skip(0) =~= sv);
        }
        let mut i: usize = 0;
        while i < statements.len()
            invariant
                0 <= i <= statements@.len(),
                sv == stmts_view(statements@),
                sv.len() == statements@.len(),
                forall|k: int| 0 <= k < statements@.len() ==> #[trigger] sv[k] == stmt_view(statements@[k]),
                r::res_methods(sv, line, old(self).state()) == r::res_methods(sv.skip(i as int), line, self.state()),
            decreases statements@.len() - i,
        {
            assert(sv.skip(i as int).drop_first() =~= sv.skip(i + 1));
            assert(sv.skip(i as int)[0] == stmt_view(statements@[i as int]));
            match &statements[i] {
                Statement::Function(n, params, body, _) => {
                    let prev_fn = self.is_function;
                    if n.eq(&string_of("init")) {
                        self.is_function = IsFunction::Initializer;
                    } else {
                        self.is_function = IsFunction::Function;
                    }
                    self.begin_scope();
                    self.declare_params(params, line)?;
                    self.resolve(body)?;
                    self.end_scope();
                    self.is_function = prev_fn;
                },
                _ => {},
            }
            i = i + 1;
        }
        Ok(())
    }

    fn visit_class(&mut self, class: &Statement) -> (res: Result<(), ResolveError>)
        requires
            class is Class,
        ensures
            (outcome_view(res), final(self).state()) == r::res_stmt(stmt_view(*class), old(self).state()),
        decreases class, 0nat,
    {
        match class {
            Statement::Class(name, line, superclass, statements) => {
                let current_is_class = self.is_class;
                self.declare(name.clone(), *line)?;
                self.define(name.clone());
                match superclass {
                    Some(s) => {
                        match s {
                            Expression::Variable(super_name, super_line, _) => {
                                if super_name.eq(name) {
                                    let mut m = string_of("A classe '");
                                    push_str(&mut m, name.as_str());
                                    push_str(&mut m, "' não pode herdar de si mesma.");
                                    return Err(ResolveError::new(*super_line, m));
                                }
                            },
                            _ => {},
                        }
                        self.is_class = IsClass::Subclass;
                        self.resolve_expr(s)?;
                        self.begin_scope();
                        self.put(string_of("super"), true);
                    },
                    None => {
                        self.is_class = IsClass::Class;
                    },
                }
                self.begin_scope();
                self.put(string_of("this"), true);
                self.resolve_methods(statements, *line)?;
                self.end_scope();
                if superclass.is_some() {
                    self.end_scope();
                }
                self.is_class = current_is_class;
                Ok(())
            },
            _ => Ok(()),
        }
    }

    /// Resolves the statements in order, stopping at the first error.
    pub fn resolve(&mut self, statements: &Vec<Statement>) -> (res: Result<(), ResolveError>)
        ensures
            (outcome_view(res), final(self).state()) == r::res_stmts(stmts_view(statements@), old(self).state()),
        decreases statements@, 1nat,
    {
        let ghost sv = stmts_view(statements@);
        proof {
            lemma_stmts_view_index(statements@);
            assert(sv.skip(0) =~= sv);
        }
        let mut i: usize = 0;
        while i < statements.len()
            invariant
                0 <= i <= statements@.len(),
                sv == stmts_view(statements@),
                sv.len() == statements@.len(),
                forall|k: int| 0 <= k < statements@.len() ==> #[trigger] sv[k] == stmt_view(statements@[k]),
                r::res_stmts(sv, old(self).state()) == r::res_stmts(sv.skip(i as int), self.state()),
            decreases statements@.len() - i,
        {
            assert(sv.skip(i as int).drop_first() =~= sv.skip(i + 1));
            assert(sv.skip(i as int)[0] == stmt_view(statements@[i as int]));
            self.resolve_stmt(&statements[i])?;
            i = i + 1;
        }
        Ok(())
    }
}

} // verus!
