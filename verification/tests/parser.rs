use selene::expr::Expression;
use selene::parser::{ParseError, Parser};
use selene::scanner::Scanner;
use selene::stmt::Statement;
use selene::token::{BinaryOp, LogicalOp, Token, TokenLiteral, TokenType, UnaryOp};

fn parser_for(source: &str) -> Parser {
    let mut scanner = Scanner::new(source.to_string());
    scanner.scan_tokens();
    Parser::new(scanner.into_tokens())
}

fn parse(source: &str) -> (Vec<Statement>, Vec<ParseError>) {
    let mut parser = parser_for(source);
    let statements = parser.parse();
    (statements, parser.errors.clone())
}

fn num(text: &str) -> Expression {
    Expression::Literal(TokenLiteral::Number(text.to_string()))
}

fn var(name: &str, line: u64, id: usize) -> Expression {
    Expression::Variable(name.to_string(), line, id)
}

fn b(e: Expression) -> Box<Expression> {
    Box::new(e)
}

#[test]
fn factor_binds_tighter_than_term() {
    let (statements, errors) = parse("print 1 + 2 * 3;");
    assert!(errors.is_empty());
    assert_eq!(
        statements,
        vec![Statement::Print(Expression::Binary(
            b(num("1")),
            BinaryOp::Plus,
            1,
            b(Expression::Binary(b(num("2")), BinaryOp::Star, 1, b(num("3")))),
        ))]
    );
}

#[test]
fn binary_operators_associate_to_the_left() {
    let (statements, _) = parse("1 - 2 - 3;");
    assert_eq!(
        statements,
        vec![Statement::ExprStatement(Expression::Binary(
            b(Expression::Binary(b(num("1")), BinaryOp::Minus, 1, b(num("2")))),
            BinaryOp::Minus,
            1,
            b(num("3")),
        ))]
    );
}

#[test]
fn variable_declaration_with_initializer() {
    let (statements, errors) = parse("var a = b;");
    assert!(errors.is_empty());
    assert_eq!(statements, vec![Statement::Var("a".to_string(), Some(var("b", 1, 0)), 1)]);
}

#[test]
fn variable_declaration_without_initializer() {
    let (statements, _) = parse("var a;");
    assert_eq!(statements, vec![Statement::Var("a".to_string(), None, 1)]);
}

#[test]
fn assignment_is_right_associative_and_takes_fresh_ids() {
    let (statements, errors) = parse("a = b = 1;");
    assert!(errors.is_empty());
    assert_eq!(
        statements,
        vec![Statement::ExprStatement(Expression::Assign(
            "a".to_string(),
            1,
            b(Expression::Assign("b".to_string(), 1, b(num("1")), 3)),
            1,
        ))]
    );
}

#[test]
fn logical_unary_and_grouping() {
    let (statements, _) = parse("!(true or false) and -x;");
    assert_eq!(
        statements,
        vec![Statement::ExprStatement(Expression::Logical(
            b(Expression::Unary(
                UnaryOp::Bang,
                1,
                b(Expression::Grouping(b(Expression::Logical(
                    b(Expression::Literal(TokenLiteral::Boolean(true))),
                    LogicalOp::Or,
                    1,
                    b(Expression::Literal(TokenLiteral::Boolean(false))),
                )))),
            )),
            LogicalOp::And,
            1,
            b(Expression::Unary(UnaryOp::Minus, 1, b(var("x", 1, 0)))),
        ))]
    );
}

#[test]
fn calls_and_properties() {
    let (statements, errors) = parse("f(1, \"s\").g;");
    assert!(errors.is_empty());
    let paren = Token::new(TokenType::RightParen, ")".to_string(), 1);
    let g = Token::new(TokenType::Identifier("g".to_string()), "g".to_string(), 1);
    assert_eq!(
        statements,
        vec![Statement::ExprStatement(Expression::Get(
            b(Expression::Call(
                b(var("f", 1, 0)),
                vec![num("1"), Expression::Literal(TokenLiteral::StringLiteral("s".to_string()))],
                paren,
            )),
            g,
        ))]
    );
}

#[test]
fn property_assignment() {
    let (statements, _) = parse("o.p = null;");
    let p = Token::new(TokenType::Identifier("p".to_string()), "p".to_string(), 1);
    assert_eq!(
        statements,
        vec![Statement::ExprStatement(Expression::SetProperty(
            b(var("o", 1, 0)),
            p,
            b(Expression::Literal(TokenLiteral::Null)),
        ))]
    );
}

#[test]
fn for_loop_becomes_a_while_loop_in_a_block() {
    let (statements, errors) = parse("for (var i = 0; i < 2; i = i + 1) print i;");
    assert!(errors.is_empty());
    let condition = Expression::Binary(b(var("i", 1, 0)), BinaryOp::Less, 1, b(num("2")));
    let increment = Expression::Assign(
        "i".to_string(),
        1,
        b(Expression::Binary(b(var("i", 1, 3)), BinaryOp::Plus, 1, b(num("1")))),
        2,
    );
    let body = Statement::Block(vec![Statement::Print(var("i", 1, 4)), Statement::ExprStatement(increment)]);
    assert_eq!(
        statements,
        vec![Statement::Block(vec![
            Statement::Var("i".to_string(), Some(num("0")), 1),
            Statement::While(condition, Box::new(body)),
        ])]
    );
}

#[test]
fn if_with_else_and_while() {
    let (statements, errors) = parse("if (a) print 1; else print 2; while (b) {}");
    assert!(errors.is_empty());
    assert_eq!(
        statements,
        vec![
            Statement::If(
                var("a", 1, 0),
                Box::new(Statement::Print(num("1"))),
                Some(Box::new(Statement::Print(num("2")))),
            ),
            Statement::While(var("b", 1, 1), Box::new(Statement::Block(vec![]))),
        ]
    );
}

#[test]
fn function_declaration() {
    let (statements, errors) = parse("function f(a, b) {\n return a;\n}");
    assert!(errors.is_empty());
    assert_eq!(
        statements,
        vec![Statement::Function(
            "f".to_string(),
            vec!["a".to_string(), "b".to_string()],
            vec![Statement::Return(2, Some(var("a", 2, 0)))],
            1,
        )]
    );
}

#[test]
fn bare_return_takes_the_line_after_its_semicolon() {
    let (statements, _) = parse("function f() { return;\n }");
    assert_eq!(
        statements,
        vec![Statement::Function("f".to_string(), vec![], vec![Statement::Return(2, None)], 1)]
    );
}

#[test]
fn missing_semicolon_after_print_is_reported() {
    let (statements, errors) = parse("print 1");
    assert!(statements.is_empty());
    assert_eq!(errors.len(), 1);
    assert_eq!(errors[0].message, "Esperava ';' após o valor do print, mas encontrei ''.");
    assert_eq!(errors[0].token.token_type, TokenType::EOF);
}

#[test]
fn invalid_assignment_target_is_reported() {
    let (statements, errors) = parse("1 = 2; print 3;");
    assert_eq!(errors.len(), 1);
    assert_eq!(errors[0].message, "Alvo de atribuição inválido.");
    assert_eq!(errors[0].token.lexeme, "2");
    assert_eq!(statements, vec![Statement::Print(num("3"))]);
}

#[test]
fn unexpected_token_is_reported_and_parsing_resumes() {
    let (statements, errors) = parse("print );\nvar x = 1;");
    assert_eq!(errors.len(), 1);
    assert_eq!(errors[0].message, "Token inesperado ')' na linha 1.");
    assert_eq!(statements, vec![Statement::Var("x".to_string(), Some(num("1")), 2)]);
}

#[test]
fn unclosed_block_is_reported() {
    let (statements, errors) = parse("{ print 1;");
    assert!(statements.is_empty());
    assert_eq!(errors.len(), 1);
    assert_eq!(errors[0].message, "Bloco não fechado — esperava '}'.");
}

#[test]
fn missing_parenthesis_after_if_is_reported() {
    let (_, errors) = parse("if a) print 1;");
    assert_eq!(errors[0].message, "Esperava '(' após 'if', mas encontrei 'a'.");
}

#[test]
fn missing_variable_name_is_reported() {
    let (_, errors) = parse("var 1;");
    assert_eq!(errors[0].message, "Esperava nome de variável após 'var', mas encontrei '1'.");
}

#[test]
fn missing_function_name_is_reported() {
    let (_, errors) = parse("function (a) {}");
    assert_eq!(errors[0].message, "Esperava um nome, mas encontrei '('.");
}

#[test]
fn function_without_body_runs_out_of_tokens() {
    let mut parser = parser_for("function f()");
    parser.parse();
    assert!(parser.ran_out_of_tokens());
}

#[test]
fn parser_stops_at_end_of_file() {
    let mut parser = parser_for("print 1; x = ;");
    parser.parse();
    assert!(parser.is_at_end());
    assert!(!parser.ran_out_of_tokens());
}

#[test]
fn ids_are_handed_out_in_order() {
    let mut parser = parser_for("a; b; c;");
    let statements = parser.parse();
    assert_eq!(
        statements,
        vec![
            Statement::ExprStatement(var("a", 1, 0)),
            Statement::ExprStatement(var("b", 1, 1)),
            Statement::ExprStatement(var("c", 1, 2)),
        ]
    );
    assert_eq!(parser.next_free_id(), 3);
}

#[test]
fn parse_error_new_keeps_its_parts() {
    let token = Token::new(TokenType::Semicolon, ";".to_string(), 4);
    let e = ParseError::new(token.clone(), "m".to_string());
    assert_eq!(e.token, token);
    assert_eq!(e.message, "m");
}

fn expr_ids(e: &Expression, out: &mut Vec<usize>) {
    match e {
        Expression::Binary(l, _, _, r) | Expression::Logical(l, _, _, r) => {
            expr_ids(l, out);
            expr_ids(r, out);
        }
        Expression::Unary(_, _, x) | Expression::Grouping(x) | Expression::Get(x, _) => expr_ids(x, out),
        Expression::Literal(_) => {}
        Expression::Variable(_, _, id) | Expression::This(_, id) | Expression::Super(_, _, id) => out.push(*id),
        Expression::Assign(_, _, x, id) => {
            out.push(*id);
            expr_ids(x, out);
        }
        Expression::Call(c, args, _) => {
            expr_ids(c, out);
            for a in args {
                expr_ids(a, out);
            }
        }
        Expression::SetProperty(x, _, v) => {
            expr_ids(x, out);
            expr_ids(v, out);
        }
    }
}

fn stmt_ids(s: &Statement, out: &mut Vec<usize>) {
    match s {
        Statement::Print(e) | Statement::ExprStatement(e) => expr_ids(e, out),
        Statement::Var(_, init, _) | Statement::Return(_, init) => {
            if let Some(e) = init {
                expr_ids(e, out);
            }
        }
        Statement::Block(body) | Statement::Function(_, _, body, _) => {
            for x in body {
                stmt_ids(x, out);
            }
        }
        Statement::If(c, t, e) => {
            expr_ids(c, out);
            stmt_ids(t, out);
            if let Some(e) = e {
                stmt_ids(e, out);
            }
        }
        Statement::While(c, b) => {
            expr_ids(c, out);
            stmt_ids(b, out);
        }
        Statement::Class(_, _, sup, body) => {
            if let Some(e) = sup {
                expr_ids(e, out);
            }
            for x in body {
                stmt_ids(x, out);
            }
        }
    }
}

#[test]
fn every_parsed_identifier_is_distinct() {
    let mut parser = parser_for(
        "var a = b = c; for (var i = 0; i < n; i = i + 1) { f(i, a.x = i); } function g(p) { return p and q or r; } bad = ; print a;",
    );
    let statements = parser.parse();
    let mut ids = Vec::new();
    for s in &statements {
        stmt_ids(s, &mut ids);
    }
    assert_eq!(ids.len(), 14);
    assert_eq!(parser.next_free_id(), 18);
    let mut sorted = ids.clone();
    sorted.sort();
    sorted.dedup();
    assert_eq!(sorted.len(), ids.len());
    assert!(ids.iter().all(|id| *id < parser.next_free_id()));
}

#[test]
fn a_later_parse_continues_the_identifiers() {
    let mut first = parser_for("a; b;");
    first.parse();
    let mut scanner = Scanner::new("c;".to_string());
    scanner.scan_tokens();
    let mut second = Parser::continuing(scanner.into_tokens(), first.next_free_id());
    let statements = second.parse();
    assert_eq!(statements, vec![Statement::ExprStatement(var("c", 1, 2))]);
    assert_eq!(second.next_free_id(), 3);
    assert!(second.errors().is_empty());
}

#[test]
fn errors_are_reported_in_order() {
    let (_, errors) = parse("print );\nvar 1;\nif x) y;");
    let messages: Vec<&str> = errors.iter().map(|e| e.message.as_str()).collect();
    assert_eq!(
        messages,
        vec![
            "Token inesperado ')' na linha 1.",
            "Esperava nome de variável após 'var', mas encontrei '1'.",
            "Esperava '(' após 'if', mas encontrei 'x'.",
        ]
    );
}
