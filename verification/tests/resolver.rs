use std::collections::HashMap;

use selene::expr::Expression;
use selene::parser::Parser;
use selene::resolver::{IsClass, IsFunction, ResolveError, Resolver};
use selene::scanner::Scanner;
use selene::stmt::Statement;
use selene::token::{Token, TokenLiteral, TokenType};

fn statements_of(source: &str) -> Vec<Statement> {
    let mut scanner = Scanner::new(source.to_string());
    scanner.scan_tokens();
    let mut parser = Parser::new(scanner.into_tokens());
    let statements = parser.parse();
    assert!(parser.errors.is_empty());
    statements
}

fn resolve(statements: &Vec<Statement>) -> (Result<(), ResolveError>, HashMap<usize, usize>) {
    let mut resolver = Resolver::new();
    let outcome = resolver.resolve(statements);
    (outcome, resolver.into_locals())
}

fn resolve_source(source: &str) -> (Result<(), ResolveError>, HashMap<usize, usize>) {
    resolve(&statements_of(source))
}

fn token(token_type: TokenType, lexeme: &str) -> Token {
    Token::new(token_type, lexeme.to_string(), 1)
}

fn error(line: u64, message: &str) -> Result<(), ResolveError> {
    Err(ResolveError::new(line, message.to_string()))
}

#[test]
fn globals_are_not_recorded_and_locals_are() {
    let (outcome, locals) = resolve_source("var a = 1; { var b = a; print b; }");
    assert_eq!(outcome, Ok(()));
    assert_eq!(locals, HashMap::from([(1, 0)]));
}

#[test]
fn depth_counts_the_blocks_between_use_and_declaration() {
    let (outcome, locals) = resolve_source("{ var x = 1; { { print x; } } }");
    assert_eq!(outcome, Ok(()));
    assert_eq!(locals, HashMap::from([(0, 2)]));
}

#[test]
fn parameters_are_one_scope_out_of_an_inner_block() {
    let (outcome, locals) = resolve_source("function f(x) { { print x; } }");
    assert_eq!(outcome, Ok(()));
    assert_eq!(locals, HashMap::from([(0, 1)]));
}

#[test]
fn assignment_records_its_own_id() {
    let (outcome, locals) = resolve_source("{ var a; a = 2; }");
    assert_eq!(outcome, Ok(()));
    assert_eq!(locals, HashMap::from([(1, 0)]));
}

#[test]
fn recursive_function_sees_itself() {
    let (outcome, locals) = resolve_source("{ function f() { f(); } }");
    assert_eq!(outcome, Ok(()));
    assert_eq!(locals, HashMap::from([(0, 1)]));
}

#[test]
fn reading_a_variable_in_its_own_initializer_is_refused() {
    let (outcome, _) = resolve_source("{\n var a = a; }");
    assert_eq!(outcome, error(2, "Variável 'a' usada antes de ser inicializada."));
}

#[test]
fn redeclaring_in_a_block_is_refused() {
    let (outcome, _) = resolve_source("{ var a; var a; }");
    assert_eq!(outcome, error(1, "Variável 'a' já foi declarada neste escopo. Use um nome diferente."));
}

#[test]
fn redeclaring_a_global_is_allowed() {
    let (outcome, locals) = resolve_source("var a; var a;");
    assert_eq!(outcome, Ok(()));
    assert!(locals.is_empty());
}

#[test]
fn return_outside_a_function_is_refused() {
    let (outcome, _) = resolve_source("return 1;");
    assert_eq!(outcome, error(1, "'return' só pode ser usado dentro de uma função."));
}

#[test]
fn this_outside_a_class_is_refused() {
    let (outcome, _) = resolve_source("print this;");
    assert_eq!(outcome, error(1, "'this' só pode ser usado dentro de métodos de uma classe."));
}

#[test]
fn super_outside_a_class_is_refused() {
    let (outcome, _) = resolve_source("super.m();");
    assert_eq!(outcome, error(1, "'super' só pode ser usado dentro de métodos de uma classe."));
}

#[test]
fn resolution_stops_at_the_first_error() {
    let (outcome, locals) = resolve_source("{ var a; var a; }\n{ var b; print b; }");
    assert!(outcome.is_err());
    assert!(locals.is_empty());
}

#[test]
fn class_inheriting_from_itself_is_refused() {
    let class = Statement::Class(
        "A".to_string(),
        3,
        Some(Expression::Variable("A".to_string(), 4, 0)),
        vec![],
    );
    let (outcome, _) = resolve(&vec![class]);
    assert_eq!(outcome, error(4, "A classe 'A' não pode herdar de si mesma."));
}

#[test]
fn super_in_a_class_without_superclass_is_refused() {
    let call = Expression::Super(token(TokenType::Super, "super"), token(TokenType::Identifier("m".to_string()), "m"), 0);
    let method = Statement::Function("m".to_string(), vec![], vec![Statement::ExprStatement(call)], 1);
    let (outcome, _) = resolve(&vec![Statement::Class("A".to_string(), 1, None, vec![method])]);
    assert_eq!(outcome, error(1, "'super' só pode ser usado em classes que herdam de outra classe."));
}

#[test]
fn initializer_returning_a_value_is_refused() {
    let ret = Statement::Return(1, Some(Expression::Literal(TokenLiteral::Number("1".to_string()))));
    let init = Statement::Function("init".to_string(), vec![], vec![ret], 1);
    let (outcome, _) = resolve(&vec![Statement::Class("A".to_string(), 1, None, vec![init])]);
    assert_eq!(
        outcome,
        error(1, "O método 'init' não pode retornar um valor. Use 'return;' sem valor para sair cedo.")
    );
}

#[test]
fn this_and_super_in_methods_are_resolved() {
    let this = Expression::This(token(TokenType::This, "this"), 5);
    let sup = Expression::Super(token(TokenType::Super, "super"), token(TokenType::Identifier("m".to_string()), "m"), 6);
    let method = Statement::Function(
        "m".to_string(),
        vec![],
        vec![Statement::Print(this), Statement::ExprStatement(sup)],
        1,
    );
    let base = Statement::Class("B".to_string(), 1, None, vec![]);
    let class = Statement::Class(
        "A".to_string(),
        2,
        Some(Expression::Variable("B".to_string(), 2, 7)),
        vec![method],
    );
    let (outcome, locals) = resolve(&vec![base, class]);
    assert_eq!(outcome, Ok(()));
    assert_eq!(locals, HashMap::from([(5, 1), (6, 2)]));
}

#[test]
fn resolver_errors_and_body_kinds() {
    let e = ResolveError::new(7, "m".to_string());
    assert_eq!(e.line, 7);
    assert_eq!(e.message, "m");
    assert_ne!(IsFunction::Function, IsFunction::Initializer);
    assert_ne!(IsClass::Class, IsClass::Subclass);
    assert_eq!(IsFunction::NoFunction, IsFunction::NoFunction);
    assert_eq!(IsClass::NoClass, IsClass::NoClass);
}

#[test]
fn scopes_are_closed_after_a_successful_block() {
    let first = statements_of("{ var a; { var b; } }");
    let second = statements_of("print a;");
    let mut resolver = Resolver::new();
    assert_eq!(resolver.resolve(&first), Ok(()));
    assert_eq!(resolver.resolve(&second), Ok(()));
    assert!(resolver.locals().is_empty());
}

#[test]
fn a_block_resolved_inside_an_open_scope_sees_it() {
    let inner = statements_of("{ print a; }");
    let mut resolver = Resolver::new();
    resolver.begin_scope();
    assert_eq!(resolver.declare("a".to_string(), 1), Ok(()));
    resolver.define("a".to_string());
    assert_eq!(resolver.resolve(&inner), Ok(()));
    assert_eq!(resolver.locals(), &HashMap::from([(0, 1)]));
    resolver.end_scope();
}
