//! What resolving computes, stated over the views of the syntax tree and the
//! resolver's state: its stack of scopes, the depths recorded so far, and
//! the kind of function and class body it is in.
use vstd::prelude::*;

use crate::expr::ExprView;
use crate::stmt::StmtView;
use super::{IsClass, IsFunction};

verus! {

/// The mathematical value of a resolve error.
pub struct ResolveErrorView {
    pub line: u64,
    pub message: Seq<char>,
}

/// The resolver's state. Each scope maps a name to whether its declaration
/// is complete; `locals` maps an expression's identifier to the number of
/// scopes between its use and the scope that declares its name.
pub struct RState {
    pub scopes: Seq<Map<Seq<char>, bool>>,
    pub locals: Map<usize, usize>,
    pub is_function: IsFunction,
    pub is_class: IsClass,
}

pub type Outcome = (Result<(), ResolveErrorView>, RState);

pub open spec fn refuse(line: u64, message: Seq<char>, s: RState) -> Outcome {
    (Err(ResolveErrorView { line, message }), s)
}

pub open spec fn begin(s: RState) -> RState {
    RState { scopes: s.scopes.push(Map::empty()), ..s }
}

pub open spec fn end(s: RState) -> RState {
    if s.scopes.len() == 0 {
        s
    } else {
        RState { scopes: s.scopes.drop_last(), ..s }
    }
}

/// Sets `name` to `ready` in the innermost scope (no effect without a scope).
pub open spec fn put(s: RState, name: Seq<char>, ready: bool) -> RState {
    if s.scopes.len() == 0 {
        s
    } else {
        RState { scopes: s.scopes.update(s.scopes.len() - 1, s.scopes.last().insert(name, ready)), ..s }
    }
}

/// Declares `name` in the innermost scope, refusing a second declaration there.
pub open spec fn declare(s: RState, name: Seq<char>, line: u64) -> Outcome {
    if s.scopes.len() > 0 && s.scopes.last().contains_key(name) {
        refuse(
            line,
            "Variável '"@ + name + "' já foi declarada neste escopo. Use um nome diferente."@,
            s,
        )
    } else {
        (Ok(()), put(s, name, false))
    }
}

pub open spec fn define(s: RState, name: Seq<char>) -> RState {
    put(s, name, true)
}

/// The index of the innermost scope that holds `name`, if any.
pub open spec fn innermost(scopes: Seq<Map<Seq<char>, bool>>, name: Seq<char>) -> Option<int>
    decreases scopes.len(),
{
    if scopes.len() == 0 {
        None
    } else if scopes.last().contains_key(name) {
        Some(scopes.len() - 1)
    } else {
        innermost(scopes.drop_last(), name)
    }
}

/// Records, for the expression `id`, how many scopes out its name is declared;
/// a name that no scope holds is left to the globals (nothing is recorded).
pub open spec fn resolve_local(s: RState, id: usize, name: Seq<char>) -> RState {
    match innermost(s.scopes, name) {
        Some(i) => RState { locals: s.locals.insert(id, (s.scopes.len() - 1 - i) as usize), ..s },
        None => s,
    }
}

pub open spec fn with_function(s: RState, f: IsFunction) -> RState {
    RState { is_function: f, ..s }
}

pub open spec fn with_class(s: RState, c: IsClass) -> RState {
    RState { is_class: c, ..s }
}

/// The line of a superclass expression that names the class itself.
pub open spec fn self_inheritance(sup: ExprView, name: Seq<char>) -> Option<u64> {
    match sup {
        ExprView::Variable(sn, l, _) => if sn == name {
            Some(l)
        } else {
            None
        },
        _ => None,
    }
}

/// Resolves an expression.
pub open spec fn res_expr(e: ExprView, s: RState) -> Outcome
    decreases e,
{
    match e {
        ExprView::Binary(l, _, _, r) => {
            let (a, s1) = res_expr(*l, s);
            if a is Err {
                (a, s1)
            } else {
                res_expr(*r, s1)
            }
        },
        ExprView::Logical(l, _, _, r) => {
            let (a, s1) = res_expr(*l, s);
            if a is Err {
                (a, s1)
            } else {
                res_expr(*r, s1)
            }
        },
        ExprView::SetProperty(x, _, v) => {
            let (a, s1) = res_expr(*x, s);
            if a is Err {
                (a, s1)
            } else {
                res_expr(*v, s1)
            }
        },
        ExprView::Unary(_, _, x) => res_expr(*x, s),
        ExprView::Grouping(x) => res_expr(*x, s),
        ExprView::Get(x, _) => res_expr(*x, s),
        ExprView::Literal(_) => (Ok(()), s),
        ExprView::Variable(name, line, id) => if s.scopes.len() > 0 && s.scopes.last().contains_key(name)
            && !s.scopes.last()[name] {
            refuse(line, "Variável '"@ + name + "' usada antes de ser inicializada."@, s)
        } else {
            (Ok(()), resolve_local(s, id, name))
        },
        ExprView::Assign(name, _, x, id) => {
            let (a, s1) = res_expr(*x, s);
            if a is Err {
                (a, s1)
            } else {
                (Ok(()), resolve_local(s1, id, name))
            }
        },
        ExprView::Call(c, args, _) => {
            let (a, s1) = res_expr(*c, s);
            if a is Err {
                (a, s1)
            } else {
                res_exprs(args, s1)
            }
        },
        ExprView::This(t, id) => if s.is_class is NoClass {
            refuse(t.line, "'this' só pode ser usado dentro de métodos de uma classe."@, s)
        } else {
            (Ok(()), resolve_local(s, id, "this"@))
        },
        ExprView::Super(t, _, id) => if s.is_class is NoClass {
            refuse(t.line, "'super' só pode ser usado dentro de métodos de uma classe."@, s)
        } else if s.is_class is Class {
            refuse(t.line, "'super' só pode ser usado em classes que herdam de outra classe."@, s)
        } else {
            (Ok(()), resolve_local(s, id, "super"@))
        },
    }
}

/// Resolves expressions in order, stopping at the first error.
pub open spec fn res_exprs(es: Seq<ExprView>, s: RState) -> Outcome
    decreases es,
{
    if es.len() == 0 {
        (Ok(()), s)
    } else {
        let (a, s1) = res_expr(es[0], s);
        if a is Err {
            (a, s1)
        } else {
            res_exprs(es.drop_first(), s1)
        }
    }
}

/// Declares and defines parameters in order, stopping at the first error.
pub open spec fn res_params(params: Seq<Seq<char>>, line: u64, s: RState) -> Outcome
    decreases params.len(),
{
    if params.len() == 0 {
        (Ok(()), s)
    } else {
        let (a, s1) = declare(s, params[0], line);
        if a is Err {
            (a, s1)
        } else {
            res_params(params.drop_first(), line, define(s1, params[0]))
        }
    }
}

/// Resolves a statement.
pub open spec fn res_stmt(x: StmtView, s: RState) -> Outcome
    decreases x,
{
    match x {
        StmtView::Print(e) => res_expr(e, s),
        StmtView::ExprStatement(e) => res_expr(e, s),
        StmtView::Var(name, init, line) => {
            let (a, s1) = declare(s, name, line);
            if a is Err {
                (a, s1)
            } else {
                let (b, s2) = match init {
                    Some(e) => res_expr(e, s1),
                    None => (Ok(()), s1),
                };
                if b is Err {
                    (b, s2)
                } else {
                    (Ok(()), define(s2, name))
                }
            }
        },
        StmtView::Block(body) => {
            let (a, s1) = res_stmts(body, begin(s));
            if a is Err {
                (a, s1)
            } else {
                (Ok(()), end(s1))
            }
        },
        StmtView::If(c, t, e) => {
            let (a, s1) = res_expr(c, s);
            if a is Err {
                (a, s1)
            } else {
                let (b, s2) = res_stmt(*t, s1);
                if b is Err {
                    (b, s2)
                } else {
                    match e {
                        Some(eb) => res_stmt(*eb, s2),
                        None => (Ok(()), s2),
                    }
                }
            }
        },
        StmtView::While(c, b) => {
            let (a, s1) = res_expr(c, s);
            if a is Err {
                (a, s1)
            } else {
                res_stmt(*b, s1)
            }
        },
        StmtView::Function(name, params, body, line) => {
            let (a, s1) = declare(s, name, line);
            if a is Err {
                (a, s1)
            } else {
                let s2 = begin(define(s1, name));
                let (b, s3) = res_params(params, line, with_function(s2, IsFunction::Function));
                if b is Err {
                    (b, s3)
                } else {
                    let (c, s4) = res_stmts(body, s3);
                    if c is Err {
                        (c, s4)
                    } else {
                        (Ok(()), end(with_function(s4, s.is_function)))
                    }
                }
            }
        },
        StmtView::Return(line, v) => if s.is_function is NoFunction {
            refuse(line, "'return' só pode ser usado dentro de uma função."@, s)
        } else if s.is_function is Initializer && v is Some {
            refuse(
                line,
                "O método 'init' não pode retornar um valor. Use 'return;' sem valor para sair cedo."@,
                s,
            )
        } else {
            match v {
                Some(e) => res_expr(e, s),
                None => (Ok(()), s),
            }
        },
        StmtView::Class(name, line, sup, body) => {
            let (a, s1) = declare(s, name, line);
            if a is Err {
                (a, s1)
            } else {
                let s2 = define(s1, name);
                let (b, s3) = match sup {
                    Some(sx) => match self_inheritance(sx, name) {
                        Some(l2) => refuse(l2, "A classe '"@ + name + "' não pode herdar de si mesma."@, s2),
                        None => {
                            let (r, s3) = res_expr(sx, with_class(s2, IsClass::Subclass));
                            if r is Err {
                                (r, s3)
                            } else {
                                (Ok(()), put(begin(s3), "super"@, true))
                            }
                        },
                    },
                    None => (Ok(()), with_class(s2, IsClass::Class)),
                };
                if b is Err {
                    (b, s3)
                } else {
                    let (c, s4) = res_methods(body, line, put(begin(s3), "this"@, true));
                    if c is Err {
                        (c, s4)
                    } else {
                        let s5 = end(s4);
                        let s6 = if sup is Some { end(s5) } else { s5 };
                        (Ok(()), with_class(s6, s.is_class))
                    }
                }
            }
        },
    }
}

/// Resolves statements in order, stopping at the first error.
pub open spec fn res_stmts(xs: Seq<StmtView>, s: RState) -> Outcome
    decreases xs,
{
    if xs.len() == 0 {
        (Ok(()), s)
    } else {
        let (a, s1) = res_stmt(xs[0], s);
        if a is Err {
            (a, s1)
        } else {
            res_stmts(xs.drop_first(), s1)
        }
    }
}

/// Resolves the methods of a class body (its other statements are passed
/// over); parameters are declared on the class's line.
pub open spec fn res_methods(xs: Seq<StmtView>, line: u64, s: RState) -> Outcome
    decreases xs,
{
    if xs.len() == 0 {
        (Ok(()), s)
    } else {
        let (a, s1) = match xs[0] {
            StmtView::Function(n, params, body, _) => {
                let kind = if n == "init"@ { IsFunction::Initializer } else { IsFunction::Function };
                let (b, s2) = res_params(params, line, begin(with_function(s, kind)));
                if b is Err {
                    (b, s2)
                } else {
                    let (c, s3) = res_stmts(body, s2);
                    if c is Err {
                        (c, s3)
                    } else {
                        (Ok(()), with_function(end(s3), s.is_function))
                    }
                }
            },
            _ => (Ok(()), s),
        };
        if a is Err {
            (a, s1)
        } else {
            res_methods(xs.drop_first(), line, s1)
        }
    }
}

/// `s` with `k` more empty scopes opened inside it.
pub open spec fn opened(s: RState, k: nat) -> RState
    decreases k,
{
    if k == 0 {
        s
    } else {
        begin(opened(s, (k - 1) as nat))
    }
}

/// Law: a variable declared in the innermost scope is found there: a use of
/// it right after its declaration is recorded at depth 0.
pub proof fn law_use_after_declaration_depth_zero(s: RState, name: Seq<char>, line: u64, id: usize)
    requires
        s.scopes.len() > 0,
        declare(s, name, line).0 is Ok,
    ensures
        resolve_local(define(declare(s, name, line).1, name), id, name).locals == s.locals.insert(id, 0),
{
    let s1 = define(declare(s, name, line).1, name);
    assert(s1.scopes.last().contains_key(name));
}

proof fn lemma_innermost_opened(s: RState, name: Seq<char>, k: nat)
    ensures
        innermost(opened(s, k).scopes, name) == innermost(s.scopes, name),
        opened(s, k).scopes.len() == s.scopes.len() + k,
        opened(s, k).locals == s.locals,
    decreases k,
{
    if k > 0 {
        lemma_innermost_opened(s, name, (k - 1) as nat);
        let t = opened(s, (k - 1) as nat);
        assert(begin(t).scopes.drop_last() =~= t.scopes);
    }
}

/// Law: the depth recorded for a use counts the scopes opened between the
/// use and the declaration: declared in the innermost scope and used `k`
/// scopes further in, a name is recorded at depth `k`.
pub proof fn law_depth_counts_scopes(s: RState, name: Seq<char>, id: usize, k: nat)
    requires
        s.scopes.len() > 0,
        s.scopes.last().contains_key(name),
        k <= usize::MAX,
    ensures
        resolve_local(opened(s, k), id, name).locals == s.locals.insert(id, k as usize),
{
    lemma_innermost_opened(s, name, k);
}

/// Law: inside a block, declaring a variable a second time is refused,
/// with the error at the second declaration.
pub proof fn law_redeclaration_in_scope_refused(s: RState, name: Seq<char>, first: u64, second: u64)
    requires
        s.scopes.len() > 0,
        res_stmt(StmtView::Var(name, None, first), s).0 is Ok,
    ensures
        res_stmt(StmtView::Var(name, None, second), res_stmt(StmtView::Var(name, None, first), s).1).0
            == Err::<(), ResolveErrorView>(ResolveErrorView {
                line: second,
                message: "Variável '"@ + name + "' já foi declarada neste escopo. Use um nome diferente."@,
            }),
{
    let s1 = res_stmt(StmtView::Var(name, None, first), s).1;
    assert(s1.scopes.last().contains_key(name));
}

/// Law: at the top level, outside every block, a variable may be declared
/// again, and neither declaration changes the resolver's state.
pub proof fn law_global_redeclaration_allowed(s: RState, name: Seq<char>, line: u64)
    requires
        s.scopes.len() == 0,
    ensures
        res_stmt(StmtView::Var(name, None, line), s) == (Ok::<(), ResolveErrorView>(()), s),
{
}

/// `after` has as many scopes as `before`, and the same ones but for the
/// innermost.
pub open spec fn same_outer(before: Seq<Map<Seq<char>, bool>>, after: Seq<Map<Seq<char>, bool>>) -> bool {
    &&& after.len() == before.len()
    &&& forall|i: int| 0 <= i < before.len() - 1 ==> #[trigger] after[i] == before[i]
}

/// What resolving keeps, whatever its outcome: the scopes themselves, the
/// kind of body it is in, and every depth already recorded.
pub open spec fn keeps_context(before: RState, after: RState) -> bool {
    &&& after.scopes == before.scopes
    &&& after.is_function == before.is_function
    &&& after.is_class == before.is_class
    &&& before.locals.dom().subset_of(after.locals.dom())
}

/// What a resolution that succeeded leaves: as many scopes, all but the
/// innermost unchanged, the same kind of body, and every depth already
/// recorded.
pub open spec fn balanced(before: RState, after: RState) -> bool {
    &&& same_outer(before.scopes, after.scopes)
    &&& after.is_function == before.is_function
    &&& after.is_class == before.is_class
    &&& before.locals.dom().subset_of(after.locals.dom())
}

proof fn lemma_resolve_local_keeps(s: RState, id: usize, name: Seq<char>)
    ensures
        keeps_context(s, resolve_local(s, id, name)),
{
}

/// Law: resolving an expression, whether it succeeds or not, changes no
/// scope and no kind of body, and keeps every depth already recorded.
pub proof fn law_expression_resolution_keeps_context(e: ExprView, s: RState)
    ensures
        keeps_context(s, res_expr(e, s).1),
    decreases e,
{
    match e {
        ExprView::Binary(l, _, _, r) => {
            law_expression_resolution_keeps_context(*l, s);
            law_expression_resolution_keeps_context(*r, res_expr(*l, s).1);
        },
        ExprView::Logical(l, _, _, r) => {
            law_expression_resolution_keeps_context(*l, s);
            law_expression_resolution_keeps_context(*r, res_expr(*l, s).1);
        },
        ExprView::SetProperty(x, _, v) => {
            law_expression_resolution_keeps_context(*x, s);
            law_expression_resolution_keeps_context(*v, res_expr(*x, s).1);
        },
        ExprView::Unary(_, _, x) => law_expression_resolution_keeps_context(*x, s),
        ExprView::Grouping(x) => law_expression_resolution_keeps_context(*x, s),
        ExprView::Get(x, _) => law_expression_resolution_keeps_context(*x, s),
        ExprView::Literal(_) => {},
        ExprView::Variable(name, _, id) => lemma_resolve_local_keeps(s, id, name),
        ExprView::Assign(name, _, x, id) => {
            law_expression_resolution_keeps_context(*x, s);
            lemma_resolve_local_keeps(res_expr(*x, s).1, id, name);
        },
        ExprView::Call(c, args, _) => {
            law_expression_resolution_keeps_context(*c, s);
            lemma_res_exprs_keeps(args, res_expr(*c, s).1);
        },
        ExprView::This(_, id) => lemma_resolve_local_keeps(s, id, "this"@),
        ExprView::Super(_, _, id) => lemma_resolve_local_keeps(s, id, "super"@),
    }
}

proof fn lemma_res_exprs_keeps(es: Seq<ExprView>, s: RState)
    ensures
        keeps_context(s, res_exprs(es, s).1),
    decreases es,
{
    if es.len() > 0 {
        law_expression_resolution_keeps_context(es[0], s);
        let s1 = res_expr(es[0], s).1;
        if res_expr(es[0], s).0 is Ok {
            lemma_res_exprs_keeps(es.drop_first(), s1);
        }
    }
}

proof fn lemma_put_balanced(s: RState, name: Seq<char>, ready: bool)
    ensures
        balanced(s, put(s, name, ready)),
{
}

proof fn lemma_balanced_trans(a: RState, b: RState, c: RState)
    requires
        balanced(a, b),
        balanced(b, c),
    ensures
        balanced(a, c),
{
    assert forall|i: int| 0 <= i < a.scopes.len() - 1 implies #[trigger] c.scopes[i] == a.scopes[i] by {
        assert(c.scopes[i] == b.scopes[i]);
    }
}

proof fn lemma_res_params_balanced(params: Seq<Seq<char>>, line: u64, s: RState)
    ensures
        balanced(s, res_params(params, line, s).1),
    decreases params.len(),
{
    if params.len() > 0 {
        let s1 = declare(s, params[0], line).1;
        lemma_put_balanced(s, params[0], false);
        if declare(s, params[0], line).0 is Ok {
            let s2 = define(s1, params[0]);
            lemma_put_balanced(s1, params[0], true);
            lemma_balanced_trans(s, s1, s2);
            lemma_res_params_balanced(params.drop_first(), line, s2);
            lemma_balanced_trans(s, s2, res_params(params.drop_first(), line, s2).1);
        }
    }
}

/// Closing a scope opened around a resolution that stayed balanced gives
/// back the scopes as they were.
proof fn lemma_end_of_opened(s: RState, inner: RState)
    requires
        balanced(begin(s), inner),
    ensures
        end(inner).scopes == s.scopes,
        end(inner).locals == inner.locals,
{
    assert(end(inner).scopes =~= s.scopes) by {
        assert forall|i: int| 0 <= i < s.scopes.len() implies #[trigger] end(inner).scopes[i] == s.scopes[i] by {
            assert(inner.scopes[i] == begin(s).scopes[i]);
        }
    }
}

/// Law: resolving a statement that succeeds leaves as many scopes open as
/// before, changes none of them but the innermost, returns to the kind of
/// function and class body it started in, and keeps every depth already
/// recorded.
pub proof fn law_statement_resolution_balanced(x: StmtView, s: RState)
    ensures
        res_stmt(x, s).0 is Ok ==> balanced(s, res_stmt(x, s).1),
    decreases x,
{
    match x {
        StmtView::Print(e) => {
            law_expression_resolution_keeps_context(e, s);
        },
        StmtView::ExprStatement(e) => {
            law_expression_resolution_keeps_context(e, s);
        },
        StmtView::Var(name, init, line) => {
            let s1 = declare(s, name, line).1;
            lemma_put_balanced(s, name, false);
            if let Some(e) = init {
                law_expression_resolution_keeps_context(e, s1);
            }
            let s2 = match init {
                Some(e) => res_expr(e, s1).1,
                None => s1,
            };
            lemma_put_balanced(s2, name, true);
            if res_stmt(x, s).0 is Ok {
                lemma_balanced_trans(s, s1, s2);
                lemma_balanced_trans(s, s2, define(s2, name));
            }
        },
        StmtView::Block(body) => {
            law_statements_resolution_balanced(body, begin(s));
            if res_stmt(x, s).0 is Ok {
                lemma_end_of_opened(s, res_stmts(body, begin(s)).1);
            }
        },
        StmtView::If(c, t, e) => {
            law_expression_resolution_keeps_context(c, s);
            let s1 = res_expr(c, s).1;
            law_statement_resolution_balanced(*t, s1);
            let s2 = res_stmt(*t, s1).1;
            if let Some(eb) = e {
                law_statement_resolution_balanced(*eb, s2);
                if res_stmt(x, s).0 is Ok {
                    lemma_balanced_trans(s, s1, s2);
                    lemma_balanced_trans(s, s2, res_stmt(*eb, s2).1);
                }
            } else if res_stmt(x, s).0 is Ok {
                lemma_balanced_trans(s, s1, s2);
            }
        },
        StmtView::While(c, b) => {
            law_expression_resolution_keeps_context(c, s);
            let s1 = res_expr(c, s).1;
            law_statement_resolution_balanced(*b, s1);
            if res_stmt(x, s).0 is Ok {
                lemma_balanced_trans(s, s1, res_stmt(*b, s1).1);
            }
        },
        StmtView::Function(name, params, body, line) => {
            let s1 = declare(s, name, line).1;
            lemma_put_balanced(s, name, false);
            let d = define(s1, name);
            lemma_put_balanced(s1, name, true);
            let s2 = begin(d);
            let f = with_function(s2, IsFunction::Function);
            lemma_res_params_balanced(params, line, f);
            let s3 = res_params(params, line, f).1;
            law_statements_resolution_balanced(body, s3);
            let s4 = res_stmts(body, s3).1;
            if res_stmt(x, s).0 is Ok {
                lemma_balanced_trans(f, s3, s4);
                let g = with_function(s4, s.is_function);
                assert(balanced(begin(d), g));
                lemma_end_of_opened(d, g);
                lemma_balanced_trans(s, s1, d);
            }
        },
        StmtView::Return(_, v) => {
            if let Some(e) = v {
                law_expression_resolution_keeps_context(e, s);
            }
        },
        StmtView::Class(name, line, sup, body) => {
            let s1 = declare(s, name, line).1;
            lemma_put_balanced(s, name, false);
            let s2 = define(s1, name);
            lemma_put_balanced(s1, name, true);
            if res_stmt(x, s).0 is Ok {
                lemma_balanced_trans(s, s1, s2);
                let s3 = match sup {
                    Some(sx) => put(begin(res_expr(sx, with_class(s2, IsClass::Subclass)).1), "super"@, true),
                    None => with_class(s2, IsClass::Class),
                };
                let m = put(begin(s3), "this"@, true);
                lemma_put_balanced(begin(s3), "this"@, true);
                lemma_methods_resolution_balanced(body, line, m);
                let s4 = res_methods(body, line, m).1;
                lemma_balanced_trans(begin(s3), m, s4);
                lemma_end_of_opened(s3, s4);
                match sup {
                    Some(sx) => {
                        let c = with_class(s2, IsClass::Subclass);
                        law_expression_resolution_keeps_context(sx, c);
                        let s3a = res_expr(sx, c).1;
                        lemma_put_balanced(begin(s3a), "super"@, true);
                        lemma_end_of_opened(s3a, s3);
                        assert(end(end(s4)).scopes == s2.scopes);
                    },
                    None => {},
                }
            }
        },
    }
}

/// Law: resolving statements in order that all succeed is balanced as one
/// statement is.
pub proof fn law_statements_resolution_balanced(xs: Seq<StmtView>, s: RState)
    ensures
        res_stmts(xs, s).0 is Ok ==> balanced(s, res_stmts(xs, s).1),
    decreases xs,
{
    if xs.len() > 0 {
        law_statement_resolution_balanced(xs[0], s);
        let s1 = res_stmt(xs[0], s).1;
        if res_stmt(xs[0], s).0 is Ok {
            law_statements_resolution_balanced(xs.drop_first(), s1);
            if res_stmts(xs, s).0 is Ok {
                lemma_balanced_trans(s, s1, res_stmts(xs.drop_first(), s1).1);
            }
        }
    }
}

proof fn lemma_methods_resolution_balanced(xs: Seq<StmtView>, line: u64, s: RState)
    ensures
        res_methods(xs, line, s).0 is Ok ==> balanced(s, res_methods(xs, line, s).1),
    decreases xs,
{
    if xs.len() > 0 {
        match xs[0] {
            StmtView::Function(n, params, body, _) => {
                let kind = if n == "init"@ { IsFunction::Initializer } else { IsFunction::Function };
                let o = begin(with_function(s, kind));
                lemma_res_params_balanced(params, line, o);
                let s2 = res_params(params, line, o).1;
                law_statements_resolution_balanced(body, s2);
                let s3 = res_stmts(body, s2).1;
                let s1 = with_function(end(s3), s.is_function);
                if res_params(params, line, o).0 is Ok && res_stmts(body, s2).0 is Ok {
                    lemma_balanced_trans(o, s2, s3);
                    lemma_end_of_opened(with_function(s, kind), s3);
                    assert(balanced(s, s1));
                    lemma_methods_resolution_balanced(xs.drop_first(), line, s1);
                    if res_methods(xs, line, s).0 is Ok {
                        lemma_balanced_trans(s, s1, res_methods(xs.drop_first(), line, s1).1);
                    }
                }
            },
            _ => {
                lemma_methods_resolution_balanced(xs.drop_first(), line, s);
            },
        }
    }
}

/// The uses of names in an expression, each with the identifier of the
/// expression that uses it, in the order resolution meets them: variable
/// reads and assignments (after the assigned value), `this` and `super`.
pub open spec fn uses(e: ExprView) -> Seq<(Seq<char>, usize)>
    decreases e,
{
    match e {
        ExprView::Binary(l, _, _, r) => uses(*l) + uses(*r),
        ExprView::Logical(l, _, _, r) => uses(*l) + uses(*r),
        ExprView::SetProperty(x, _, v) => uses(*x) + uses(*v),
        ExprView::Unary(_, _, x) => uses(*x),
        ExprView::Grouping(x) => uses(*x),
        ExprView::Get(x, _) => uses(*x),
        ExprView::Literal(_) => Seq::empty(),
        ExprView::Variable(name, _, id) => seq![(name, id)],
        ExprView::Assign(name, _, x, id) => uses(*x) + seq![(name, id)],
        ExprView::Call(c, args, _) => uses(*c) + args_uses(args),
        ExprView::This(_, id) => seq![("this"@, id)],
        ExprView::Super(_, _, id) => seq![("super"@, id)],
    }
}

/// The uses of names in a list of expressions, in order.
pub open spec fn args_uses(es: Seq<ExprView>) -> Seq<(Seq<char>, usize)>
    decreases es,
{
    if es.len() == 0 {
        Seq::empty()
    } else {
        uses(es[0]) + args_uses(es.drop_first())
    }
}

/// Whether `key` is the identifier of one of the uses `u`.
pub open spec fn used_id(u: Seq<(Seq<char>, usize)>, key: usize) -> bool {
    exists|k: int| 0 <= k < u.len() && #[trigger] u[k].1 == key
}

/// The uses `u` carry distinct identifiers.
pub open spec fn distinct_ids(u: Seq<(Seq<char>, usize)>) -> bool {
    forall|i: int, j: int| 0 <= i < u.len() && 0 <= j < u.len() && i != j ==> #[trigger] u[i].1 != #[trigger] u[j].1
}

/// From `s` to `r` no depth was recorded or changed for an identifier that
/// is not one of the uses `u`.
pub open spec fn untouched(s: RState, r: RState, u: Seq<(Seq<char>, usize)>) -> bool {
    forall|key: usize| !used_id(u, key) ==> (#[trigger] r.locals.contains_key(key) == s.locals.contains_key(key)
        && (s.locals.contains_key(key) ==> r.locals[key] == s.locals[key]))
}

/// In `r`, every use of `u` whose name a scope of `s` declares has a depth.
pub open spec fn recorded(s: RState, r: RState, u: Seq<(Seq<char>, usize)>) -> bool {
    forall|k: int| 0 <= k < u.len() && #[trigger] innermost(s.scopes, u[k].0) is Some ==> r.locals.contains_key(u[k].1)
}

/// In `r`, every use of `u` whose name a scope of `s` declares has as its
/// depth the number of scopes between it and the innermost such scope.
pub open spec fn at_depth(s: RState, r: RState, u: Seq<(Seq<char>, usize)>) -> bool {
    forall|k: int| 0 <= k < u.len() && #[trigger] innermost(s.scopes, u[k].0) is Some
        ==> r.locals[u[k].1] == (s.scopes.len() - 1 - innermost(s.scopes, u[k].0)->0) as usize
}

/// Everything resolution promises of the uses `u` between `s` and `r`,
/// when it succeeded (`ok`).
pub open spec fn resolves(s: RState, r: RState, u: Seq<(Seq<char>, usize)>, ok: bool) -> bool {
    &&& r.scopes == s.scopes
    &&& s.locals.dom().subset_of(r.locals.dom())
    &&& untouched(s, r, u)
    &&& ok ==> recorded(s, r, u)
    &&& ok && distinct_ids(u) ==> at_depth(s, r, u)
}

proof fn lemma_resolves_compose(
    s: RState,
    s1: RState,
    s2: RState,
    u1: Seq<(Seq<char>, usize)>,
    u2: Seq<(Seq<char>, usize)>,
    ok1: bool,
    ok2: bool,
)
    requires
        resolves(s, s1, u1, ok1),
        resolves(s1, s2, u2, ok2),
    ensures
        resolves(s, s2, u1 + u2, ok1 && ok2),
{
    let u = u1 + u2;
    assert forall|key: usize| !used_id(u, key) implies (#[trigger] s2.locals.contains_key(key) == s.locals.contains_key(key)
        && (s.locals.contains_key(key) ==> s2.locals[key] == s.locals[key])) by {
        if used_id(u1, key) {
            let k = choose|k: int| 0 <= k < u1.len() && #[trigger] u1[k].1 == key;
            assert(u[k] == u1[k]);
        }
        if used_id(u2, key) {
            let k = choose|k: int| 0 <= k < u2.len() && #[trigger] u2[k].1 == key;
            assert(u[k + u1.len()] == u2[k]);
        }
        assert(s1.locals.contains_key(key) == s.locals.contains_key(key));
    }
    if ok1 && ok2 {
        assert forall|k: int| 0 <= k < u.len() && #[trigger] innermost(s.scopes, u[k].0) is Some implies s2.locals.contains_key(u[k].1) by {
            if k < u1.len() {
                assert(u[k] == u1[k]);
                assert(s1.locals.contains_key(u1[k].1));
            } else {
                assert(u[k] == u2[k - u1.len()]);
                assert(innermost(s1.scopes, u2[k - u1.len()].0) is Some);
            }
        }
        if distinct_ids(u) {
            assert(distinct_ids(u1)) by {
                assert forall|i: int, j: int| 0 <= i < u1.len() && 0 <= j < u1.len() && i != j implies #[trigger] u1[i].1 != #[trigger] u1[j].1 by {
                    assert(u[i] == u1[i] && u[j] == u1[j]);
                }
            }
            assert(distinct_ids(u2)) by {
                assert forall|i: int, j: int| 0 <= i < u2.len() && 0 <= j < u2.len() && i != j implies #[trigger] u2[i].1 != #[trigger] u2[j].1 by {
                    assert(u[i + u1.len()] == u2[i] && u[j + u1.len()] == u2[j]);
                }
            }
            assert forall|k: int| 0 <= k < u.len() && #[trigger] innermost(s.scopes, u[k].0) is Some
                implies s2.locals[u[k].1] == (s.scopes.len() - 1 - innermost(s.scopes, u[k].0)->0) as usize by {
                if k < u1.len() {
                    assert(u[k] == u1[k]);
                    assert(innermost(s.scopes, u1[k].0) is Some);
                    assert(!used_id(u2, u1[k].1)) by {
                        if used_id(u2, u1[k].1) {
                            let j = choose|j: int| 0 <= j < u2.len() && #[trigger] u2[j].1 == u1[k].1;
                            assert(u[j + u1.len()] == u2[j]);
                            assert(u[k].1 != u[j + u1.len()].1);
                        }
                    }
                    assert(s1.locals.contains_key(u1[k].1));
                    assert(s2.locals.contains_key(u1[k].1) == s1.locals.contains_key(u1[k].1));
                } else {
                    assert(u[k] == u2[k - u1.len()]);
                    assert(innermost(s1.scopes, u2[k - u1.len()].0) is Some);
                }
            }
        }
    }
}

proof fn lemma_resolves_weaken(s: RState, r: RState, u1: Seq<(Seq<char>, usize)>, u2: Seq<(Seq<char>, usize)>)
    requires
        resolves(s, r, u1, false),
    ensures
        resolves(s, r, u1 + u2, false),
{
    let u = u1 + u2;
    assert forall|key: usize| !used_id(u, key) implies (#[trigger] r.locals.contains_key(key) == s.locals.contains_key(key)
        && (s.locals.contains_key(key) ==> r.locals[key] == s.locals[key])) by {
        if used_id(u1, key) {
            let k = choose|k: int| 0 <= k < u1.len() && #[trigger] u1[k].1 == key;
            assert(u[k] == u1[k]);
        }
    }
}

proof fn lemma_resolves_none(s: RState)
    ensures
        resolves(s, s, Seq::empty(), true),
{
}

proof fn lemma_resolve_local_resolves(s: RState, id: usize, name: Seq<char>)
    ensures
        resolves(s, resolve_local(s, id, name), seq![(name, id)], true),
{
    let u = seq![(name, id)];
    let r = resolve_local(s, id, name);
    assert forall|key: usize| !used_id(u, key) implies (#[trigger] r.locals.contains_key(key) == s.locals.contains_key(key)
        && (s.locals.contains_key(key) ==> r.locals[key] == s.locals[key])) by {
        assert(u[0].1 == id);
    }
    assert forall|k: int| 0 <= k < u.len() && #[trigger] innermost(s.scopes, u[k].0) is Some implies r.locals.contains_key(u[k].1) by {
        assert(u[k] == (name, id));
    }
    assert forall|k: int| 0 <= k < u.len() && #[trigger] innermost(s.scopes, u[k].0) is Some
        implies r.locals[u[k].1] == (s.scopes.len() - 1 - innermost(s.scopes, u[k].0)->0) as usize by {
        assert(u[k] == (name, id));
    }
}

proof fn lemma_refused_resolves(s: RState, u: Seq<(Seq<char>, usize)>)
    ensures
        resolves(s, s, u, false),
{
}

/// Law: resolving an expression gives a depth to every use of a name in
/// it (every variable read or assignment, every `this` and `super`, in
/// both operands of every operator and in every argument) that a scope
/// declares, and to no other identifier; when the identifiers are
/// distinct, as the parser hands them out, the depth is the number of
/// scopes between the use and the innermost scope declaring its name.
pub proof fn law_expression_uses_resolved(e: ExprView, s: RState)
    ensures
        resolves(s, res_expr(e, s).1, uses(e), res_expr(e, s).0 is Ok),
    decreases e,
{
    match e {
        ExprView::Binary(l, _, _, r) => {
            law_expression_uses_resolved(*l, s);
            let (a, s1) = res_expr(*l, s);
            if a is Err {
                lemma_resolves_weaken(s, s1, uses(*l), uses(*r));
            } else {
                law_expression_uses_resolved(*r, s1);
                lemma_resolves_compose(s, s1, res_expr(*r, s1).1, uses(*l), uses(*r), true, res_expr(*r, s1).0 is Ok);
            }
        },
        ExprView::Logical(l, _, _, r) => {
            law_expression_uses_resolved(*l, s);
            let (a, s1) = res_expr(*l, s);
            if a is Err {
                lemma_resolves_weaken(s, s1, uses(*l), uses(*r));
            } else {
                law_expression_uses_resolved(*r, s1);
                lemma_resolves_compose(s, s1, res_expr(*r, s1).1, uses(*l), uses(*r), true, res_expr(*r, s1).0 is Ok);
            }
        },
        ExprView::SetProperty(x, _, v) => {
            law_expression_uses_resolved(*x, s);
            let (a, s1) = res_expr(*x, s);
            if a is Err {
                lemma_resolves_weaken(s, s1, uses(*x), uses(*v));
            } else {
                law_expression_uses_resolved(*v, s1);
                lemma_resolves_compose(s, s1, res_expr(*v, s1).1, uses(*x), uses(*v), true, res_expr(*v, s1).0 is Ok);
            }
        },
        ExprView::Unary(_, _, x) => law_expression_uses_resolved(*x, s),
        ExprView::Grouping(x) => law_expression_uses_resolved(*x, s),
        ExprView::Get(x, _) => law_expression_uses_resolved(*x, s),
        ExprView::Literal(_) => lemma_resolves_none(s),
        ExprView::Variable(name, line, id) => {
            lemma_refused_resolves(s, seq![(name, id)]);
            lemma_resolve_local_resolves(s, id, name);
        },
        ExprView::Assign(name, _, x, id) => {
            law_expression_uses_resolved(*x, s);
            let (a, s1) = res_expr(*x, s);
            if a is Err {
                lemma_resolves_weaken(s, s1, uses(*x), seq![(name, id)]);
            } else {
                lemma_resolve_local_resolves(s1, id, name);
                lemma_resolves_compose(s, s1, resolve_local(s1, id, name), uses(*x), seq![(name, id)], true, true);
            }
        },
        ExprView::Call(c, args, _) => {
            law_expression_uses_resolved(*c, s);
            let (a, s1) = res_expr(*c, s);
            if a is Err {
                lemma_resolves_weaken(s, s1, uses(*c), args_uses(args));
            } else {
                lemma_args_uses_resolved(args, s1);
                lemma_resolves_compose(s, s1, res_exprs(args, s1).1, uses(*c), args_uses(args), true, res_exprs(args, s1).0 is Ok);
            }
        },
        ExprView::This(_, id) => {
            lemma_refused_resolves(s, seq![("this"@, id)]);
            lemma_resolve_local_resolves(s, id, "this"@);
        },
        ExprView::Super(_, _, id) => {
            lemma_refused_resolves(s, seq![("super"@, id)]);
            lemma_resolve_local_resolves(s, id, "super"@);
        },
    }
}

proof fn lemma_args_uses_resolved(es: Seq<ExprView>, s: RState)
    ensures
        resolves(s, res_exprs(es, s).1, args_uses(es), res_exprs(es, s).0 is Ok),
    decreases es,
{
    if es.len() == 0 {
        lemma_resolves_none(s);
    } else {
        law_expression_uses_resolved(es[0], s);
        let (a, s1) = res_expr(es[0], s);
        if a is Err {
            lemma_resolves_weaken(s, s1, uses(es[0]), args_uses(es.drop_first()));
        } else {
            lemma_args_uses_resolved(es.drop_first(), s1);
            lemma_resolves_compose(
                s,
                s1,
                res_exprs(es.drop_first(), s1).1,
                uses(es[0]),
                args_uses(es.drop_first()),
                true,
                res_exprs(es.drop_first(), s1).0 is Ok,
            );
        }
    }
}

} // verus!
