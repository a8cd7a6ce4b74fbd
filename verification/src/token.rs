use vstd::prelude::*;

verus! {

/// The kinds of token that the scanner produces.
///
/// A number literal carries the text of its lexeme (digits with an optional
/// fraction); what number that text denotes is left to the evaluator.
#[derive(Debug, PartialEq, Clone)]
pub enum TokenType {
    LeftParen,
    RightParen,
    LeftBrace,
    RightBrace,
    Comma,
    Dot,
    Semicolon,
    Star,
    Plus,
    Minus,
    Slash,
    PlusEqual,
    MinusEqual,
    SlashEqual,
    StarEqual,
    Bang,
    BangEqual,
    Equal,
    EqualEqual,
    Greater,
    GreaterEqual,
    Less,
    LessEqual,
    Identifier(String),
    StringLiteral(String),
    Number(String),
    Boolean(bool),
    And,
    Class,
    Else,
    If,
    Function,
    For,
    Null,
    Or,
    Print,
    Return,
    Super,
    This,
    Var,
    While,
    Switch,
    Case,
    EOF,
}

/// A literal value as it appears in the source.
#[derive(Debug, PartialEq, Clone)]
pub enum TokenLiteral {
    StringLiteral(String),
    Number(String),
    Boolean(bool),
    Null,
}

#[derive(Debug, PartialEq, Clone, Copy)]
pub enum UnaryOp {
    Minus,
    Bang,
}

#[derive(Debug, PartialEq, Clone, Copy)]
pub enum LogicalOp {
    And,
    Or,
}

#[derive(Debug, PartialEq, Clone, Copy)]
pub enum BinaryOp {
    Star,
    Plus,
    Minus,
    Slash,
    EqualEqual,
    Greater,
    GreaterEqual,
    Less,
    LessEqual,
    BangEqual,
}

#[derive(Debug, PartialEq, Clone)]
pub struct Token {
    pub token_type: TokenType,
    pub lexeme: String,
    pub line: u64,
}

/// The mathematical value of a token type: text payloads become character sequences.
pub enum TokenKind {
    LeftParen,
    RightParen,
    LeftBrace,
    RightBrace,
    Comma,
    Dot,
    Semicolon,
    Star,
    Plus,
    Minus,
    Slash,
    PlusEqual,
    MinusEqual,
    SlashEqual,
    StarEqual,
    Bang,
    BangEqual,
    Equal,
    EqualEqual,
    Greater,
    GreaterEqual,
    Less,
    LessEqual,
    Identifier(Seq<char>),
    StringLiteral(Seq<char>),
    Number(Seq<char>),
    Boolean(bool),
    And,
    Class,
    Else,
    If,
    Function,
    For,
    Null,
    Or,
    Print,
    Return,
    Super,
    This,
    Var,
    While,
    Switch,
    Case,
    EOF,
}

/// How the source writes a token of kind `k`, for the punctuation and
/// operator kinds and the words `and` and `or` (empty for the others).
pub open spec fn spelling(k: TokenKind) -> Seq<char> {
    match k {
        TokenKind::LeftParen => "("@,
        TokenKind::RightParen => ")"@,
        TokenKind::LeftBrace => "{"@,
        TokenKind::RightBrace => "}"@,
        TokenKind::Comma => ","@,
        TokenKind::Dot => "."@,
        TokenKind::Semicolon => ";"@,
        TokenKind::Star => "*"@,
        TokenKind::Plus => "+"@,
        TokenKind::Minus => "-"@,
        TokenKind::Slash => "/"@,
        TokenKind::PlusEqual => "+="@,
        TokenKind::MinusEqual => "-="@,
        TokenKind::SlashEqual => "/="@,
        TokenKind::StarEqual => "*="@,
        TokenKind::Bang => "!"@,
        TokenKind::BangEqual => "!="@,
        TokenKind::Equal => "="@,
        TokenKind::EqualEqual => "=="@,
        TokenKind::Greater => ">"@,
        TokenKind::GreaterEqual => ">="@,
        TokenKind::Less => "<"@,
        TokenKind::LessEqual => "<="@,
        TokenKind::And => "and"@,
        TokenKind::Or => "or"@,
        _ => Seq::empty(),
    }
}

/// The kind of token a binary operator is written with: the one of the
/// same name.
pub open spec fn binary_token(op: BinaryOp) -> TokenKind {
    match op {
        BinaryOp::Star => TokenKind::Star,
        BinaryOp::Plus => TokenKind::Plus,
        BinaryOp::Minus => TokenKind::Minus,
        BinaryOp::Slash => TokenKind::Slash,
        BinaryOp::EqualEqual => TokenKind::EqualEqual,
        BinaryOp::Greater => TokenKind::Greater,
        BinaryOp::GreaterEqual => TokenKind::GreaterEqual,
        BinaryOp::Less => TokenKind::Less,
        BinaryOp::LessEqual => TokenKind::LessEqual,
        BinaryOp::BangEqual => TokenKind::BangEqual,
    }
}

/// The kind of token a logical operator is written with.
pub open spec fn logical_token(op: LogicalOp) -> TokenKind {
    match op {
        LogicalOp::And => TokenKind::And,
        LogicalOp::Or => TokenKind::Or,
    }
}

/// The kind of token a prefix operator is written with.
pub open spec fn unary_token(op: UnaryOp) -> TokenKind {
    match op {
        UnaryOp::Minus => TokenKind::Minus,
        UnaryOp::Bang => TokenKind::Bang,
    }
}


impl View for TokenType {
    type V = TokenKind;

    open spec fn view(&self) -> TokenKind {
        match self {
            TokenType::LeftParen => TokenKind::LeftParen,
            TokenType::RightParen => TokenKind::RightParen,
            TokenType::LeftBrace => TokenKind::LeftBrace,
            TokenType::RightBrace => TokenKind::RightBrace,
            TokenType::Comma => TokenKind::Comma,
            TokenType::Dot => TokenKind::Dot,
            TokenType::Semicolon => TokenKind::Semicolon,
            TokenType::Star => TokenKind::Star,
            TokenType::Plus => TokenKind::Plus,
            TokenType::Minus => TokenKind::Minus,
            TokenType::Slash => TokenKind::Slash,
            TokenType::PlusEqual => TokenKind::PlusEqual,
            TokenType::MinusEqual => TokenKind::MinusEqual,
            TokenType::SlashEqual => TokenKind::SlashEqual,
            TokenType::StarEqual => TokenKind::StarEqual,
            TokenType::Bang => TokenKind::Bang,
            TokenType::BangEqual => TokenKind::BangEqual,
            TokenType::Equal => TokenKind::Equal,
            TokenType::EqualEqual => TokenKind::EqualEqual,
            TokenType::Greater => TokenKind::Greater,
            TokenType::GreaterEqual => TokenKind::GreaterEqual,
            TokenType::Less => TokenKind::Less,
            TokenType::LessEqual => TokenKind::LessEqual,
            TokenType::Identifier(s) => TokenKind::Identifier(s@),
            TokenType::StringLiteral(s) => TokenKind::StringLiteral(s@),
            TokenType::Number(s) => TokenKind::Number(s@),
            TokenType::Boolean(b) => TokenKind::Boolean(*b),
            TokenType::And => TokenKind::And,
            TokenType::Class => TokenKind::Class,
            TokenType::Else => TokenKind::Else,
            TokenType::If => TokenKind::If,
            TokenType::Function => TokenKind::Function,
            TokenType::For => TokenKind::For,
            TokenType::Null => TokenKind::Null,
            TokenType::Or => TokenKind::Or,
            TokenType::Print => TokenKind::Print,
            TokenType::Return => TokenKind::Return,
            TokenType::Super => TokenKind::Super,
            TokenType::This => TokenKind::This,
            TokenType::Var => TokenKind::Var,
            TokenType::While => TokenKind::While,
            TokenType::Switch => TokenKind::Switch,
            TokenType::Case => TokenKind::Case,
            TokenType::EOF => TokenKind::EOF,
        }
    }
}

/// The mathematical value of a token.
pub struct TokenView {
    pub kind: TokenKind,
    pub lexeme: Seq<char>,
    pub line: u64,
}

impl View for Token {
    type V = TokenView;

    open spec fn view(&self) -> TokenView {
        TokenView { kind: self.token_type@, lexeme: self.lexeme@, line: self.line }
    }
}

/// The reserved word spelled by `word`, if it is one.
pub open spec fn keyword_kind(word: Seq<char>) -> Option<TokenKind> {
    if word == seq!['v', 'a', 'r'] {
        Some(TokenKind::Var)
    } else if word == seq!['i', 'f'] {
        Some(TokenKind::If)
    } else if word == seq!['e', 'l', 's', 'e'] {
        Some(TokenKind::Else)
    } else if word == seq!['r', 'e', 't', 'u', 'r', 'n'] {
        Some(TokenKind::Return)
    } else if word == seq!['w', 'h', 'i', 'l', 'e'] {
        Some(TokenKind::While)
    } else if word == seq!['f', 'o', 'r'] {
        Some(TokenKind::For)
    } else if word == seq!['s', 'w', 'i', 't', 'c', 'h'] {
        Some(TokenKind::Switch)
    } else if word == seq!['c', 'a', 's', 'e'] {
        Some(TokenKind::Case)
    } else if word == seq!['p', 'r', 'i', 'n', 't'] {
        Some(TokenKind::Print)
    } else if word == seq!['n', 'u', 'l', 'l'] {
        Some(TokenKind::Null)
    } else if word == seq!['c', 'l', 'a', 's', 's'] {
        Some(TokenKind::Class)
    } else if word == seq!['f', 'u', 'n', 'c', 't', 'i', 'o', 'n'] {
        Some(TokenKind::Function)
    } else if word == seq!['o', 'r'] {
        Some(TokenKind::Or)
    } else if word == seq!['a', 'n', 'd'] {
        Some(TokenKind::And)
    } else if word == seq!['s', 'u', 'p', 'e', 'r'] {
        Some(TokenKind::Super)
    } else if word == seq!['t', 'h', 'i', 's'] {
        Some(TokenKind::This)
    } else if word == seq!['t', 'r', 'u', 'e'] {
        Some(TokenKind::Boolean(true))
    } else if word == seq!['f', 'a', 'l', 's', 'e'] {
        Some(TokenKind::Boolean(false))
    } else {
        None
    }
}

/// Whether `chars[from..to]` spells `word`.
fn spells(chars: &Vec<char>, from: usize, to: usize, word: &[char]) -> (r: bool)
    requires
        from <= to <= chars@.len(),
    ensures
        r == (chars@.subrange(from as int, to as int) == word@),
{
    if to - from != word.len() {
        return false;
    }
    let mut i: usize = 0;
    while i < word.len()
        invariant
            from <= to <= chars@.len(),
            to - from == word@.len(),
            0 <= i <= word@.len(),
            forall|j: int| 0 <= j < i ==> chars@[from + j] == word@[j],
        decreases word@.len() - i,
    {
        if chars[from + i] != word[i] {
            assert(chars@.subrange(from as int, to as int)[i as int] != word@[i as int]);
            return false;
        }
        i = i + 1;
    }
    assert(chars@.subrange(from as int, to as int) =~= word@);
    true
}

/// The reserved word spelled by `chars[from..to]`, if it is one.
pub fn keyword(chars: &Vec<char>, from: usize, to: usize) -> (r: Option<TokenType>)
    requires
        from <= to <= chars@.len(),
    ensures
        r matches Some(t) ==> keyword_kind(chars@.subrange(from as int, to as int)) == Some(t@),
        r is None ==> keyword_kind(chars@.subrange(from as int, to as int)) is None,
{
    if spells(chars, from, to, &['v', 'a', 'r']) {
        assert(&['v', 'a', 'r']@ == seq!['v', 'a', 'r']);
        Some(TokenType::Var)
    } else if spells(chars, from, to, &['i', 'f']) {
        assert(&['i', 'f']@ == seq!['i', 'f']);
        Some(TokenType::If)
    } else if spells(chars, from, to, &['e', 'l', 's', 'e']) {
        assert(&['e', 'l', 's', 'e']@ == seq!['e', 'l', 's', 'e']);
        Some(TokenType::Else)
    } else if spells(chars, from, to, &['r', 'e', 't', 'u', 'r', 'n']) {
        assert(&['r', 'e', 't', 'u', 'r', 'n']@ == seq!['r', 'e', 't', 'u', 'r', 'n']);
        Some(TokenType::Return)
    } else if spells(chars, from, to, &['w', 'h', 'i', 'l', 'e']) {
        assert(&['w', 'h', 'i', 'l', 'e']@ == seq!['w', 'h', 'i', 'l', 'e']);
        Some(TokenType::While)
    } else if spells(chars, from, to, &['f', 'o', 'r']) {
        assert(&['f', 'o', 'r']@ == seq!['f', 'o', 'r']);
        Some(TokenType::For)
    } else if spells(chars, from, to, &['s', 'w', 'i', 't', 'c', 'h']) {
        assert(&['s', 'w', 'i', 't', 'c', 'h']@ == seq!['s', 'w', 'i', 't', 'c', 'h']);
        Some(TokenType::Switch)
    } else if spells(chars, from, to, &['c', 'a', 's', 'e']) {
        assert(&['c', 'a', 's', 'e']@ == seq!['c', 'a', 's', 'e']);
        Some(TokenType::Case)
    } else if spells(chars, from, to, &['p', 'r', 'i', 'n', 't']) {
        assert(&['p', 'r', 'i', 'n', 't']@ == seq!['p', 'r', 'i', 'n', 't']);
        Some(TokenType::Print)
    } else if spells(chars, from, to, &['n', 'u', 'l', 'l']) {
        assert(&['n', 'u', 'l', 'l']@ == seq!['n', 'u', 'l', 'l']);
        Some(TokenType::Null)
    } else if spells(chars, from, to, &['c', 'l', 'a', 's', 's']) {
        assert(&['c', 'l', 'a', 's', 's']@ == seq!['c', 'l', 'a', 's', 's']);
        Some(TokenType::Class)
    } else if spells(chars, from, to, &['f', 'u', 'n', 'c', 't', 'i', 'o', 'n']) {
        assert(&['f', 'u', 'n', 'c', 't', 'i', 'o', 'n']@ == seq!['f', 'u', 'n', 'c', 't', 'i', 'o', 'n']);
        Some(TokenType::Function)
    } else if spells(chars, from, to, &['o', 'r']) {
        assert(&['o', 'r']@ == seq!['o', 'r']);
        Some(TokenType::Or)
    } else if spells(chars, from, to, &['a', 'n', 'd']) {
        assert(&['a', 'n', 'd']@ == seq!['a', 'n', 'd']);
        Some(TokenType::And)
    } else if spells(chars, from, to, &['s', 'u', 'p', 'e', 'r']) {
        assert(&['s', 'u', 'p', 'e', 'r']@ == seq!['s', 'u', 'p', 'e', 'r']);
        Some(TokenType::Super)
    } else if spells(chars, from, to, &['t', 'h', 'i', 's']) {
        assert(&['t', 'h', 'i', 's']@ == seq!['t', 'h', 'i', 's']);
        Some(TokenType::This)
    } else if spells(chars, from, to, &['t', 'r', 'u', 'e']) {
        assert(&['t', 'r', 'u', 'e']@ == seq!['t', 'r', 'u', 'e']);
        Some(TokenType::Boolean(true))
    } else if spells(chars, from, to, &['f', 'a', 'l', 's', 'e']) {
        assert(&['f', 'a', 'l', 's', 'e']@ == seq!['f', 'a', 'l', 's', 'e']);
        Some(TokenType::Boolean(false))
    } else {
        assert(&['v', 'a', 'r']@ == seq!['v', 'a', 'r']);
        assert(&['i', 'f']@ == seq!['i', 'f']);
        assert(&['e', 'l', 's', 'e']@ == seq!['e', 'l', 's', 'e']);
        assert(&['r', 'e', 't', 'u', 'r', 'n']@ == seq!['r', 'e', 't', 'u', 'r', 'n']);
        assert(&['w', 'h', 'i', 'l', 'e']@ == seq!['w', 'h', 'i', 'l', 'e']);
        assert(&['f', 'o', 'r']@ == seq!['f', 'o', 'r']);
        assert(&['s', 'w', 'i', 't', 'c', 'h']@ == seq!['s', 'w', 'i', 't', 'c', 'h']);
        assert(&['c', 'a', 's', 'e']@ == seq!['c', 'a', 's', 'e']);
        assert(&['p', 'r', 'i', 'n', 't']@ == seq!['p', 'r', 'i', 'n', 't']);
        assert(&['n', 'u', 'l', 'l']@ == seq!['n', 'u', 'l', 'l']);
        assert(&['c', 'l', 'a', 's', 's']@ == seq!['c', 'l', 'a', 's', 's']);
        assert(&['f', 'u', 'n', 'c', 't', 'i', 'o', 'n']@ == seq!['f', 'u', 'n', 'c', 't', 'i', 'o', 'n']);
        assert(&['o', 'r']@ == seq!['o', 'r']);
        assert(&['a', 'n', 'd']@ == seq!['a', 'n', 'd']);
        assert(&['s', 'u', 'p', 'e', 'r']@ == seq!['s', 'u', 'p', 'e', 'r']);
        assert(&['t', 'h', 'i', 's']@ == seq!['t', 'h', 'i', 's']);
        assert(&['t', 'r', 'u', 'e']@ == seq!['t', 'r', 'u', 'e']);
        assert(&['f', 'a', 'l', 's', 'e']@ == seq!['f', 'a', 'l', 's', 'e']);
        None
    }
}

impl TokenType {
    /// A copy of this token type that is equal to it.
    pub fn duplicate(&self) -> (r: TokenType)
        ensures
            r == *self,
    {
        match self {
            TokenType::Identifier(s) => TokenType::Identifier(s.clone()),
            TokenType::StringLiteral(s) => TokenType::StringLiteral(s.clone()),
            TokenType::Number(s) => TokenType::Number(s.clone()),
            TokenType::Boolean(b) => TokenType::Boolean(*b),
            TokenType::LeftParen => TokenType::LeftParen,
            TokenType::RightParen => TokenType::RightParen,
            TokenType::LeftBrace => TokenType::LeftBrace,
            TokenType::RightBrace => TokenType::RightBrace,
            TokenType::Comma => TokenType::Comma,
            TokenType::Dot => TokenType::Dot,
            TokenType::Semicolon => TokenType::Semicolon,
            TokenType::Star => TokenType::Star,
            TokenType::Plus => TokenType::Plus,
            TokenType::Minus => TokenType::Minus,
            TokenType::Slash => TokenType::Slash,
            TokenType::PlusEqual => TokenType::PlusEqual,
            TokenType::MinusEqual => TokenType::MinusEqual,
            TokenType::SlashEqual => TokenType::SlashEqual,
            TokenType::StarEqual => TokenType::StarEqual,
            TokenType::Bang => TokenType::Bang,
            TokenType::BangEqual => TokenType::BangEqual,
            TokenType::Equal => TokenType::Equal,
            TokenType::EqualEqual => TokenType::EqualEqual,
            TokenType::Greater => TokenType::Greater,
            TokenType::GreaterEqual => TokenType::GreaterEqual,
            TokenType::Less => TokenType::Less,
            TokenType::LessEqual => TokenType::LessEqual,
            TokenType::And => TokenType::And,
            TokenType::Class => TokenType::Class,
            TokenType::Else => TokenType::Else,
            TokenType::If => TokenType::If,
            TokenType::Function => TokenType::Function,
            TokenType::For => TokenType::For,
            TokenType::Null => TokenType::Null,
            TokenType::Or => TokenType::Or,
            TokenType::Print => TokenType::Print,
            TokenType::Return => TokenType::Return,
            TokenType::Super => TokenType::Super,
            TokenType::This => TokenType::This,
            TokenType::Var => TokenType::Var,
            TokenType::While => TokenType::While,
            TokenType::Switch => TokenType::Switch,
            TokenType::Case => TokenType::Case,
            TokenType::EOF => TokenType::EOF,
        }
    }
}

impl Token {
    pub fn new(token_type: TokenType, lexeme: String, line: u64) -> (t: Token)
        ensures
            t.token_type == token_type,
            t.lexeme == lexeme,
            t.line == line,
    {
        Token { token_type, lexeme, line }
    }

    /// A copy of this token that is equal to it.
    pub fn duplicate(&self) -> (r: Token)
        ensures
            r == *self,
    {
        Token { token_type: self.token_type.duplicate(), lexeme: self.lexeme.clone(), line: self.line }
    }
}

} // verus!
