use selene::ast_printer::AstPrinter;
use selene::expr::Expression;
use selene::parser::Parser;
use selene::scanner::Scanner;
use selene::stmt::Statement;
use selene::token::{Token, TokenLiteral, TokenType};

fn expression_of(source: &str) -> Expression {
    let mut scanner = Scanner::new(format!("{};", source));
    scanner.scan_tokens();
    let mut parser = Parser::new(scanner.into_tokens());
    let mut statements = parser.parse();
    assert!(parser.errors.is_empty());
    match statements.remove(0) {
        Statement::ExprStatement(e) => e,
        _ => panic!("not an expression statement"),
    }
}

fn printed(source: &str) -> String {
    AstPrinter::new().print(&expression_of(source))
}

#[test]
fn prints_binary_expressions_with_their_operands() {
    assert_eq!(printed("1 + 2 * 3"), "(left 1, op +, right (left 2, op *, right 3))");
    assert_eq!(printed("a != b"), "(left a, op !=, right b)");
    assert_eq!(printed("a <= b"), "(left a, op <=, right b)");
}

#[test]
fn prints_unary_grouping_and_logical() {
    assert_eq!(printed("-x"), "op - expr x");
    assert_eq!(printed("!(a)"), "op ! expr (group a)");
    assert_eq!(printed("a and b or c"), "(left (left a, op and, right b), op or, right c)");
}

#[test]
fn prints_literals() {
    assert_eq!(printed("\"texto\""), "texto");
    assert_eq!(printed("true"), "true");
    assert_eq!(printed("false"), "false");
    assert_eq!(printed("null"), "null");
}

#[test]
fn prints_numbers_in_shortest_form() {
    assert_eq!(printed("1.0"), "1");
    assert_eq!(printed("2.50"), "2.5");
    assert_eq!(printed("007"), "7");
    assert_eq!(printed("0.25"), "0.25");
    assert_eq!(printed("10"), "10");
    assert_eq!(printed("0"), "0");
}

#[test]
fn number_text_of_lexemes() {
    assert_eq!(AstPrinter::number(&"000.000".to_string()), "0");
    assert_eq!(AstPrinter::number(&"120.0300".to_string()), "120.03");
    assert_eq!(AstPrinter::number(&"".to_string()), "");
}

#[test]
fn prints_assignments_by_their_name() {
    assert_eq!(printed("a = 1"), "a");
}

#[test]
fn prints_calls_with_their_arguments() {
    assert_eq!(printed("f(1, x, \"s\")"), "callee: f, args: 1, x, s");
    assert_eq!(printed("f()"), "callee: f, args: ");
}

#[test]
fn prints_properties() {
    assert_eq!(printed("a.b"), "a.b");
    assert_eq!(printed("a.b = c"), "a.b = c");
}

#[test]
fn prints_this_and_super() {
    let this = Expression::This(Token::new(TokenType::This, "this".to_string(), 1), 0);
    assert_eq!(AstPrinter::new().print(&this), "this");
    let sup = Expression::Super(
        Token::new(TokenType::Super, "super".to_string(), 1),
        Token::new(TokenType::Identifier("m".to_string()), "m".to_string(), 1),
        1,
    );
    assert_eq!(AstPrinter::new().print(&sup), "super.m");
}

#[test]
fn prints_literal_built_by_hand() {
    let e = Expression::Literal(TokenLiteral::Number("3.140".to_string()));
    assert_eq!(AstPrinter::new().print(&e), "3.14");
}
