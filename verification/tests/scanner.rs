use selene::scanner::{ScanError, ScanErrorKind, Scanner};
use selene::token::{Token, TokenType};

fn scan(source: &str) -> (Vec<Token>, Vec<ScanError>) {
    let mut scanner = Scanner::new(source.to_string());
    scanner.scan_tokens();
    let errors = scanner.errors().clone();
    (scanner.into_tokens(), errors)
}

fn tok(token_type: TokenType, lexeme: &str, line: u64) -> Token {
    Token::new(token_type, lexeme.to_string(), line)
}

#[test]
fn scans_a_variable_declaration() {
    let (tokens, errors) = scan("var x = 1.5;");
    assert!(errors.is_empty());
    assert_eq!(
        tokens,
        vec![
            tok(TokenType::Var, "var", 1),
            tok(TokenType::Identifier("x".to_string()), "x", 1),
            tok(TokenType::Equal, "=", 1),
            tok(TokenType::Number("1.5".to_string()), "1.5", 1),
            tok(TokenType::Semicolon, ";", 1),
            tok(TokenType::EOF, "", 1),
        ]
    );
}

#[test]
fn empty_source_gives_only_end_of_file() {
    let (tokens, errors) = scan("");
    assert!(errors.is_empty());
    assert_eq!(tokens, vec![tok(TokenType::EOF, "", 1)]);
}

#[test]
fn scans_one_and_two_character_operators() {
    let (tokens, _) = scan("! != = == < <= > >= + += - -= * *=");
    let kinds: Vec<TokenType> = tokens.into_iter().map(|t| t.token_type).collect();
    assert_eq!(
        kinds,
        vec![
            TokenType::Bang,
            TokenType::BangEqual,
            TokenType::Equal,
            TokenType::EqualEqual,
            TokenType::Less,
            TokenType::LessEqual,
            TokenType::Greater,
            TokenType::GreaterEqual,
            TokenType::Plus,
            TokenType::PlusEqual,
            TokenType::Minus,
            TokenType::MinusEqual,
            TokenType::Star,
            TokenType::StarEqual,
            TokenType::EOF,
        ]
    );
}

#[test]
fn slash_equal_is_followed_by_a_slash_over_the_same_text() {
    let (tokens, _) = scan("a /= b");
    assert_eq!(
        tokens,
        vec![
            tok(TokenType::Identifier("a".to_string()), "a", 1),
            tok(TokenType::SlashEqual, "/=", 1),
            tok(TokenType::Slash, "/=", 1),
            tok(TokenType::Identifier("b".to_string()), "b", 1),
            tok(TokenType::EOF, "", 1),
        ]
    );
}

#[test]
fn keywords_and_literals() {
    let (tokens, _) = scan("class function return null print this super while for if else or and");
    let kinds: Vec<TokenType> = tokens.into_iter().map(|t| t.token_type).collect();
    assert_eq!(
        kinds,
        vec![
            TokenType::Class,
            TokenType::Function,
            TokenType::Return,
            TokenType::Null,
            TokenType::Print,
            TokenType::This,
            TokenType::Super,
            TokenType::While,
            TokenType::For,
            TokenType::If,
            TokenType::Else,
            TokenType::Or,
            TokenType::And,
            TokenType::EOF,
        ]
    );
}

#[test]
fn string_literal_spans_lines() {
    let (tokens, errors) = scan("\"a\nb\" x");
    assert!(errors.is_empty());
    assert_eq!(tokens[0], tok(TokenType::StringLiteral("a\nb".to_string()), "\"a\nb\"", 2));
    assert_eq!(tokens[1], tok(TokenType::Identifier("x".to_string()), "x", 2));
}

#[test]
fn comment_counts_its_line_break_twice() {
    let (tokens, _) = scan("// note\nprint");
    assert_eq!(tokens[0], tok(TokenType::Print, "print", 3));
}

#[test]
fn newlines_advance_the_line() {
    let (tokens, _) = scan("a\n\nb");
    assert_eq!(tokens[0].line, 1);
    assert_eq!(tokens[1].line, 3);
    assert_eq!(tokens[2], tok(TokenType::EOF, "", 3));
}

#[test]
fn number_without_digits_after_the_point_stops_before_it() {
    let (tokens, _) = scan("12.x");
    assert_eq!(tokens[0], tok(TokenType::Number("12".to_string()), "12", 1));
    assert_eq!(tokens[1], tok(TokenType::Dot, ".", 1));
}

#[test]
fn unterminated_string_is_reported() {
    let (tokens, errors) = scan("\"abc\n");
    assert_eq!(tokens, vec![tok(TokenType::EOF, "", 2)]);
    assert_eq!(errors, vec![ScanError { line: 2, kind: ScanErrorKind::UnterminatedString }]);
    assert_eq!(
        errors[0].message(),
        "Erro na linha 2: o texto iniciado com '\"' nunca foi fechado.\nDica: todo texto precisa começar e terminar com aspas, por exemplo: \"olá mundo\""
    );
}

#[test]
fn unexpected_character_is_reported_and_skipped() {
    let (tokens, errors) = scan("a @ b");
    assert_eq!(errors, vec![ScanError { line: 1, kind: ScanErrorKind::UnexpectedChar('@') }]);
    assert_eq!(
        errors[0].message(),
        "Erro na linha 1: o caractere '@' não é reconhecido pela linguagem Selene.\nDica: verifique se não há um símbolo digitado por engano."
    );
    assert_eq!(tokens.len(), 3);
}

#[test]
fn digit_before_letter_is_reported() {
    let (_, errors) = scan("1a");
    assert_eq!(errors[0], ScanError { line: 1, kind: ScanErrorKind::DigitBeforeLetter('1') });
    assert_eq!(
        errors[0].message(),
        "Erro na linha 1: o número '1' não pode ser seguido de letras.\nDica: nomes de variáveis não podem começar com números. "
    );
}

#[test]
fn identifiers_take_letters_digits_and_underscores() {
    let (tokens, _) = scan("_a1 ção");
    assert_eq!(tokens[0], tok(TokenType::Identifier("_a1".to_string()), "_a1", 1));
    assert_eq!(tokens[1], tok(TokenType::Identifier("ção".to_string()), "ção", 1));
}

#[test]
fn scanned_tokens_end_with_exactly_one_end_of_file() {
    let (tokens, _) = scan("print 1; @ \"x");
    assert_eq!(tokens.last().unwrap().token_type, TokenType::EOF);
    assert_eq!(tokens.iter().filter(|t| t.token_type == TokenType::EOF).count(), 1);
}

#[test]
fn token_lines_never_decrease() {
    let (tokens, _) = scan("a\n\"b\nc\" // x\n d /= e\n");
    let lines: Vec<u64> = tokens.iter().map(|t| t.line).collect();
    assert_eq!(lines, vec![1, 3, 5, 5, 5, 5, 6]);
    assert!(lines.windows(2).all(|w| w[0] <= w[1]));
}
