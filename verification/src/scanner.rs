use vstd::prelude::*;

use crate::text::{is_letter, decimal, push_decimal, push_str, string_from_chars, chars_of};
use crate::token::{keyword, keyword_kind, spelling, Token, TokenKind, TokenType, TokenView};

verus! {

/// What went wrong while scanning.
#[derive(Debug, PartialEq, Clone, Copy)]
pub enum ScanErrorKind {
    /// A string literal whose closing quote never came.
    UnterminatedString,
    /// A digit directly followed by a letter (the digit is given).
    DigitBeforeLetter(char),
    /// A character that starts no token (the character is given).
    UnexpectedChar(char),
}

/// A problem found while scanning, with the line it was found on.
#[derive(Debug, PartialEq, Clone, Copy)]
pub struct ScanError {
    pub line: u64,
    pub kind: ScanErrorKind,
}

/// Turns source text into tokens.
pub struct Scanner {
    tokens: Vec<Token>,
    errors: Vec<ScanError>,
    start: usize,
    current: usize,
    line: u64,
    source: Vec<char>,
}

/// The state of a scanner: the source, what has been produced so far, and
/// where the scanner stands.
pub struct ScanView {
    pub source: Seq<char>,
    pub tokens: Seq<TokenView>,
    pub errors: Seq<ScanError>,
    pub start: int,
    pub current: int,
    pub line: int,
}

impl View for Scanner {
    type V = ScanView;

    closed spec fn view(&self) -> ScanView {
        ScanView {
            source: self.source@,
            tokens: self.tokens@.map_values(|t: Token| t@),
            errors: self.errors@,
            start: self.start as int,
            current: self.current as int,
            line: self.line as int,
        }
    }
}

/// The character at `i`, or `'\0'` past either end.
pub open spec fn char_at(src: Seq<char>, i: int) -> char {
    if 0 <= i < src.len() {
        src[i]
    } else {
        '\0'
    }
}

pub open spec fn is_digit(c: char) -> bool {
    '0' <= c <= '9'
}

pub open spec fn is_alpha(c: char) -> bool {
    is_letter(c) || c == '_'
}

pub open spec fn is_alpha_numeric(c: char) -> bool {
    is_alpha(c) || is_digit(c)
}

/// The first index at or after `i` whose character is not a digit (or the end).
pub open spec fn digits_end(src: Seq<char>, i: int) -> int
    decreases src.len() - i,
{
    if 0 <= i < src.len() && is_digit(src[i]) {
        digits_end(src, i + 1)
    } else {
        i
    }
}

/// The first index at or after `i` whose character is neither a letter, `_`
/// nor a digit (or the end).
pub open spec fn word_end(src: Seq<char>, i: int) -> int
    decreases src.len() - i,
{
    if 0 <= i < src.len() && is_alpha_numeric(src[i]) {
        word_end(src, i + 1)
    } else {
        i
    }
}

/// The first index at or after `i` that holds `ch` (or the end).
pub open spec fn find_char(src: Seq<char>, i: int, ch: char) -> int
    decreases src.len() - i,
{
    if 0 <= i < src.len() && src[i] != ch {
        find_char(src, i + 1, ch)
    } else {
        i
    }
}

/// The number of line breaks in `src[i..j]`.
pub open spec fn newlines(src: Seq<char>, i: int, j: int) -> int
    decreases j - i,
{
    if j <= i {
        0
    } else {
        newlines(src, i, j - 1) + if src[j - 1] == '\n' { 1int } else { 0int }
    }
}

/// A token of kind `kind` whose lexeme runs from the scanner's start to `to`.
pub open spec fn lexed(s: ScanView, kind: TokenKind, to: int, line: int) -> TokenView {
    TokenView { kind, lexeme: s.source.subrange(s.start, to), line: line as u64 }
}

/// Emits a token of `n` characters from the current position and moves past them.
pub open spec fn emit(s: ScanView, kind: TokenKind, n: int) -> ScanView {
    ScanView {
        tokens: s.tokens.push(lexed(s, kind, s.current + n, s.line)),
        current: s.current + n,
        ..s
    }
}

/// An operator of one character, or of two when the second is `second`.
pub open spec fn one_or_two(s: ScanView, second: char, long: TokenKind, short: TokenKind) -> ScanView {
    if char_at(s.source, s.current + 1) == second {
        emit(s, long, 2)
    } else {
        emit(s, short, 1)
    }
}

/// Records an error at the current line and moves one character on.
pub open spec fn fail(s: ScanView, kind: ScanErrorKind) -> ScanView {
    ScanView {
        errors: s.errors.push(ScanError { line: s.line as u64, kind }),
        current: s.current + 1,
        ..s
    }
}

/// A string literal opened at the current position.
pub open spec fn scan_string(s: ScanView) -> ScanView {
    let e = find_char(s.source, s.current + 1, '"');
    let line = s.line + newlines(s.source, s.current + 1, e);
    if e >= s.source.len() {
        ScanView {
            errors: s.errors.push(ScanError { line: line as u64, kind: ScanErrorKind::UnterminatedString }),
            current: e,
            line,
            ..s
        }
    } else {
        ScanView {
            tokens: s.tokens.push(
                lexed(s, TokenKind::StringLiteral(s.source.subrange(s.start + 1, e)), e + 1, line),
            ),
            current: e + 1,
            line,
            ..s
        }
    }
}

/// A number literal starting at the current position: digits, then a
/// fraction when a `.` is followed by a digit.
pub open spec fn scan_number(s: ScanView) -> ScanView {
    let d = digits_end(s.source, s.current + 1);
    let e = if char_at(s.source, d) == '.' && is_digit(char_at(s.source, d + 1)) {
        digits_end(s.source, d + 1)
    } else {
        d
    };
    ScanView {
        tokens: s.tokens.push(lexed(s, TokenKind::Number(s.source.subrange(s.start, e)), e, s.line)),
        current: e,
        ..s
    }
}

/// A word starting at the current position: a reserved word or an identifier.
pub open spec fn scan_word(s: ScanView) -> ScanView {
    let e = word_end(s.source, s.current + 1);
    let text = s.source.subrange(s.start, e);
    let kind = match keyword_kind(text) {
        Some(k) => k,
        None => TokenKind::Identifier(text),
    };
    ScanView { tokens: s.tokens.push(lexed(s, kind, e, s.line)), current: e, ..s }
}

/// What scanning the character at the current position does.
pub open spec fn scan_step(s: ScanView) -> ScanView {
    let c = s.source[s.current];
    let next = char_at(s.source, s.current + 1);
    if c == '(' {
        emit(s, TokenKind::LeftParen, 1)
    } else if c == ')' {
        emit(s, TokenKind::RightParen, 1)
    } else if c == '{' {
        emit(s, TokenKind::LeftBrace, 1)
    } else if c == '}' {
        emit(s, TokenKind::RightBrace, 1)
    } else if c == ',' {
        emit(s, TokenKind::Comma, 1)
    } else if c == '.' {
        emit(s, TokenKind::Dot, 1)
    } else if c == ';' {
        emit(s, TokenKind::Semicolon, 1)
    } else if c == '*' {
        one_or_two(s, '=', TokenKind::StarEqual, TokenKind::Star)
    } else if c == '+' {
        one_or_two(s, '=', TokenKind::PlusEqual, TokenKind::Plus)
    } else if c == '-' {
        one_or_two(s, '=', TokenKind::MinusEqual, TokenKind::Minus)
    } else if c == '/' {
        if next == '=' {
            // `/=` yields its own token and then a `/` over the same text
            let t = emit(s, TokenKind::SlashEqual, 2);
            ScanView { tokens: t.tokens.push(lexed(s, TokenKind::Slash, s.current + 2, s.line)), ..t }
        } else if next == '/' {
            ScanView {
                current: find_char(s.source, s.current + 2, '\n'),
                line: s.line + 1,
                ..s
            }
        } else {
            emit(s, TokenKind::Slash, 1)
        }
    } else if c == '=' {
        one_or_two(s, '=', TokenKind::EqualEqual, TokenKind::Equal)
    } else if c == '!' {
        one_or_two(s, '=', TokenKind::BangEqual, TokenKind::Bang)
    } else if c == '>' {
        one_or_two(s, '=', TokenKind::GreaterEqual, TokenKind::Greater)
    } else if c == '<' {
        one_or_two(s, '=', TokenKind::LessEqual, TokenKind::Less)
    } else if c == ' ' || c == '\t' {
        ScanView { current: s.current + 1, ..s }
    } else if c == '\n' {
        ScanView { current: s.current + 1, line: s.line + 1, ..s }
    } else if c == '"' {
        scan_string(s)
    } else if is_digit(c) {
        if is_alpha(next) {
            fail(s, ScanErrorKind::DigitBeforeLetter(c))
        } else {
            scan_number(s)
        }
    } else if ('a' <= c <= 'z') || ('A' <= c <= 'Z') || c == '_' || is_letter(c) {
        scan_word(s)
    } else {
        fail(s, ScanErrorKind::UnexpectedChar(c))
    }
}

/// Scanning to the end: a token for each lexeme, then an end-of-file token.
pub open spec fn scan_all(s: ScanView) -> ScanView
    decreases s.source.len() - s.current,
    via scan_all_decreases
{
    if s.current >= s.source.len() || s.current < 0 {
        ScanView {
            tokens: s.tokens.push(TokenView { kind: TokenKind::EOF, lexeme: Seq::empty(), line: s.line as u64 }),
            start: s.current,
            ..s
        }
    } else {
        scan_all(scan_step(ScanView { start: s.current, ..s }))
    }
}

#[via_fn]
proof fn scan_all_decreases(s: ScanView) {
    if !(s.current >= s.source.len() || s.current < 0) {
        lemma_step_advances(ScanView { start: s.current, ..s });
    }
}

proof fn lemma_runs(src: Seq<char>, i: int, ch: char)
    requires
        0 <= i,
    ensures
        i <= digits_end(src, i),
        i <= word_end(src, i),
        i <= find_char(src, i, ch),
        i <= src.len() ==> digits_end(src, i) <= src.len(),
        i <= src.len() ==> word_end(src, i) <= src.len(),
        i <= src.len() ==> find_char(src, i, ch) <= src.len(),
    decreases src.len() - i,
{
    if i < src.len() {
        lemma_runs(src, i + 1, ch);
    }
}

/// Each step moves the scanner forward.
proof fn lemma_step_advances(s: ScanView)
    requires
        0 <= s.current < s.source.len(),
    ensures
        s.current < scan_step(s).current <= s.source.len(),
        scan_step(s).source == s.source,
{
    lemma_runs(s.source, s.current + 1, '"');
    lemma_runs(s.source, s.current + 2, '\n');
    let d = digits_end(s.source, s.current + 1);
    lemma_runs(s.source, d + 1, '"');
}

/// No token of `ts` at or after `from` is an end-of-file token.
pub open spec fn no_eof_from(ts: Seq<TokenView>, from: int) -> bool {
    forall|i: int| from <= i < ts.len() ==> !(#[trigger] ts[i].kind is EOF)
}

proof fn lemma_keyword_not_eof(word: Seq<char>)
    ensures
        keyword_kind(word) matches Some(k) ==> !(k is EOF),
{
}

/// A step keeps the tokens already produced and adds none that ends the file.
proof fn lemma_step_tokens(s: ScanView)
    requires
        0 <= s.current < s.source.len(),
    ensures
        s.tokens.len() <= scan_step(s).tokens.len(),
        forall|i: int| 0 <= i < s.tokens.len() ==> #[trigger] scan_step(s).tokens[i] == s.tokens[i],
        no_eof_from(scan_step(s).tokens, s.tokens.len() as int),
{
    let e = word_end(s.source, s.current + 1);
    lemma_keyword_not_eof(s.source.subrange(s.start, e));
}

/// Law: scanning to the end leaves the tokens it started with in place and
/// ends them with exactly one end-of-file token, the last; tokens scanned
/// from any source are therefore a sequence the parser accepts.
pub proof fn law_scan_ends_with_eof(s: ScanView)
    requires
        no_eof_from(s.tokens, 0),
    ensures
        0 < scan_all(s).tokens.len(),
        scan_all(s).tokens.last().kind is EOF,
        scan_all(s).tokens.last().lexeme == Seq::<char>::empty(),
        no_eof_from(scan_all(s).tokens.drop_last(), 0),
        forall|i: int| 0 <= i < s.tokens.len() ==> #[trigger] scan_all(s).tokens[i] == s.tokens[i],
    decreases s.source.len() - s.current,
{
    if s.current >= s.source.len() || s.current < 0 {
        assert(scan_all(s).tokens.drop_last() =~= s.tokens);
    } else {
        let s0 = ScanView { start: s.current, ..s };
        lemma_step_tokens(s0);
        lemma_step_advances(s0);
        let s1 = scan_step(s0);
        assert(no_eof_from(s1.tokens, 0)) by {
            assert forall|i: int| 0 <= i < s1.tokens.len() implies !(#[trigger] s1.tokens[i].kind is EOF) by {
                if i < s.tokens.len() {
                    assert(s1.tokens[i] == s.tokens[i]);
                }
            }
        }
        law_scan_ends_with_eof(s1);
    }
}

/// The lines of `ts` never decrease, and none is past `line`.
pub open spec fn lines_ordered(ts: Seq<TokenView>, line: int) -> bool {
    &&& forall|i: int, j: int| 0 <= i <= j < ts.len() ==> #[trigger] ts[i].line <= #[trigger] ts[j].line
    &&& forall|i: int| 0 <= i < ts.len() ==> #[trigger] ts[i].line <= line
}

proof fn lemma_newlines_bound(src: Seq<char>, i: int, j: int)
    requires
        i <= j,
    ensures
        0 <= newlines(src, i, j) <= j - i,
    decreases j - i,
{
    if j > i {
        lemma_newlines_bound(src, i, j - 1);
    }
}

/// A step moves the line on by at most the characters it takes, and the
/// tokens it adds lie between the line before and the line after.
proof fn lemma_step_lines(s: ScanView)
    requires
        0 <= s.current < s.source.len(),
        0 <= s.line,
        s.line + (s.source.len() - s.current) < u64::MAX,
    ensures
        s.line <= scan_step(s).line,
        scan_step(s).line + (s.source.len() - scan_step(s).current) <= s.line + (s.source.len() - s.current),
        forall|i: int| s.tokens.len() <= i < scan_step(s).tokens.len() ==> s.line <= #[trigger] scan_step(s).tokens[i].line
            <= scan_step(s).line,
        forall|i: int, j: int| s.tokens.len() <= i < scan_step(s).tokens.len() && s.tokens.len() <= j < scan_step(s).tokens.len()
            ==> #[trigger] scan_step(s).tokens[i].line == #[trigger] scan_step(s).tokens[j].line,
{
    lemma_runs(s.source, s.current + 1, '"');
    lemma_runs(s.source, s.current + 2, '\n');
    let e = find_char(s.source, s.current + 1, '"');
    lemma_newlines_bound(s.source, s.current + 1, e);
    lemma_step_advances(s);
}

/// Law: the tokens of a scan come in the order of their lines: a token's
/// line is never below that of a token before it, and the end-of-file
/// token has the last line.
pub proof fn law_scan_lines_ordered(s: ScanView)
    requires
        0 <= s.current <= s.source.len(),
        0 <= s.line,
        s.line + (s.source.len() - s.current) < u64::MAX,
        lines_ordered(s.tokens, s.line),
    ensures
        lines_ordered(scan_all(s).tokens, scan_all(s).line),
    decreases s.source.len() - s.current,
{
    if s.current >= s.source.len() {
        let t = scan_all(s).tokens;
        assert(t =~= s.tokens.push(TokenView { kind: TokenKind::EOF, lexeme: Seq::empty(), line: s.line as u64 }));
        assert forall|i: int, j: int| 0 <= i <= j < t.len() implies #[trigger] t[i].line <= #[trigger] t[j].line by {
            if j < t.len() - 1 {
                assert(t[i] == s.tokens[i] && t[j] == s.tokens[j]);
            } else if i < t.len() - 1 {
                assert(t[i] == s.tokens[i]);
            }
        }
        assert forall|i: int| 0 <= i < t.len() implies #[trigger] t[i].line <= scan_all(s).line by {
            if i < t.len() - 1 {
                assert(t[i] == s.tokens[i]);
            }
        }
    } else {
        let s0 = ScanView { start: s.current, ..s };
        lemma_step_tokens(s0);
        lemma_step_advances(s0);
        lemma_step_lines(s0);
        let s1 = scan_step(s0);
        let n = s.tokens.len() as int;
        assert forall|i: int, j: int| 0 <= i <= j < s1.tokens.len() implies #[trigger] s1.tokens[i].line
            <= #[trigger] s1.tokens[j].line by {
            if j < n {
                assert(s1.tokens[i] == s.tokens[i] && s1.tokens[j] == s.tokens[j]);
            } else if i < n {
                assert(s1.tokens[i] == s.tokens[i]);
                assert(s.tokens[i].line <= s.line);
                assert(s.line <= s1.tokens[j].line);
            } else {
                assert(s1.tokens[i].line == s1.tokens[j].line);
            }
        }
        assert forall|i: int| 0 <= i < s1.tokens.len() implies #[trigger] s1.tokens[i].line <= s1.line by {
            if i < n {
                assert(s1.tokens[i] == s.tokens[i]);
            }
        }
        law_scan_lines_ordered(s1);
    }
}

/// Scanning to the end does not depend on where the last lexeme started.
proof fn lemma_scan_all_start(x: ScanView, st: int)
    ensures
        scan_all(x) == scan_all(ScanView { start: st, ..x }),
{
    let y = ScanView { start: st, ..x };
    assert(ScanView { start: x.current, ..x } == ScanView { start: y.current, ..y });
}

proof fn lemma_word_end_at(src: Seq<char>, i: int, e: int)
    requires
        0 <= i <= e <= src.len(),
        forall|j: int| i <= j < e ==> is_alpha_numeric(#[trigger] src[j]),
        e == src.len() || !is_alpha_numeric(src[e]),
    ensures
        word_end(src, i) == e,
    decreases e - i,
{
    if i < e {
        lemma_word_end_at(src, i + 1, e);
    }
}

/// Law: a word, that is a run of letters (of either case), digits and `_`
/// that starts with a letter or `_` and goes on as far as such characters
/// do, is scanned as one token with the word as its lexeme, at the current
/// line, and without any error: a reserved word as its keyword, any other
/// word as an identifier. Scanning from the word's start is scanning after
/// that token.
pub proof fn law_word_scanned(s: ScanView, e: int)
    requires
        0 <= s.current < e <= s.source.len(),
        is_letter(s.source[s.current]) || s.source[s.current] == '_',
        forall|i: int| s.current <= i < e ==> is_alpha_numeric(#[trigger] s.source[i]),
        e == s.source.len() || !is_alpha_numeric(s.source[e]),
    ensures
        ({
            let word = s.source.subrange(s.current, e);
            let k = match keyword_kind(word) {
                Some(kw) => kw,
                None => TokenKind::Identifier(word),
            };
            scan_all(s) == scan_all(
                ScanView {
                    tokens: s.tokens.push(TokenView { kind: k, lexeme: word, line: s.line as u64 }),
                    current: e,
                    start: e,
                    ..s
                },
            )
        }),
{
    lemma_word_end_at(s.source, s.current + 1, e);
    let s0 = ScanView { start: s.current, ..s };
    let word = s.source.subrange(s.current, e);
    let k = match keyword_kind(word) {
        Some(kw) => kw,
        None => TokenKind::Identifier(word),
    };
    let after = ScanView {
        tokens: s.tokens.push(TokenView { kind: k, lexeme: word, line: s.line as u64 }),
        current: e,
        ..s0
    };
    assert(scan_step(s0) == after);
    lemma_scan_all_start(after, e);
    assert(ScanView { start: e, ..after } == ScanView {
        tokens: s.tokens.push(TokenView { kind: k, lexeme: word, line: s.line as u64 }),
        current: e,
        start: e,
        ..s
    });
}

/// Every token of `ts` whose kind has a spelling is written as spelled,
/// but for the `/` that follows a `/=` over the same text.
pub open spec fn spelled(ts: Seq<TokenView>) -> bool {
    forall|i: int| 0 <= i < ts.len() && spelling(ts[i].kind).len() > 0 ==> (#[trigger] ts[i]).lexeme == spelling(ts[i].kind)
        || (ts[i].kind is Slash && i > 0 && ts[i - 1].kind is SlashEqual && ts[i].lexeme == ts[i - 1].lexeme)
}

proof fn lemma_spellings()
    ensures
        spelling(TokenKind::LeftParen) == seq!['('],
        spelling(TokenKind::RightParen) == seq![')'],
        spelling(TokenKind::LeftBrace) == seq!['{'],
        spelling(TokenKind::RightBrace) == seq!['}'],
        spelling(TokenKind::Comma) == seq![','],
        spelling(TokenKind::Dot) == seq!['.'],
        spelling(TokenKind::Semicolon) == seq![';'],
        spelling(TokenKind::Star) == seq!['*'],
        spelling(TokenKind::Plus) == seq!['+'],
        spelling(TokenKind::Minus) == seq!['-'],
        spelling(TokenKind::Slash) == seq!['/'],
        spelling(TokenKind::PlusEqual) == seq!['+', '='],
        spelling(TokenKind::MinusEqual) == seq!['-', '='],
        spelling(TokenKind::SlashEqual) == seq!['/', '='],
        spelling(TokenKind::StarEqual) == seq!['*', '='],
        spelling(TokenKind::Bang) == seq!['!'],
        spelling(TokenKind::BangEqual) == seq!['!', '='],
        spelling(TokenKind::Equal) == seq!['='],
        spelling(TokenKind::EqualEqual) == seq!['=', '='],
        spelling(TokenKind::Greater) == seq!['>'],
        spelling(TokenKind::GreaterEqual) == seq!['>', '='],
        spelling(TokenKind::Less) == seq!['<'],
        spelling(TokenKind::LessEqual) == seq!['<', '='],
        spelling(TokenKind::And) == seq!['a', 'n', 'd'],
        spelling(TokenKind::Or) == seq!['o', 'r'],
{
    reveal_strlit("(");
    reveal_strlit(")");
    reveal_strlit("{");
    reveal_strlit("}");
    reveal_strlit(",");
    reveal_strlit(".");
    reveal_strlit(";");
    reveal_strlit("*");
    reveal_strlit("+");
    reveal_strlit("-");
    reveal_strlit("/");
    reveal_strlit("+=");
    reveal_strlit("-=");
    reveal_strlit("/=");
    reveal_strlit("*=");
    reveal_strlit("!");
    reveal_strlit("!=");
    reveal_strlit("=");
    reveal_strlit("==");
    reveal_strlit(">");
    reveal_strlit(">=");
    reveal_strlit("<");
    reveal_strlit("<=");
    reveal_strlit("and");
    reveal_strlit("or");
    assert(spelling(TokenKind::PlusEqual) =~= seq!['+', '=']);
    assert(spelling(TokenKind::MinusEqual) =~= seq!['-', '=']);
    assert(spelling(TokenKind::SlashEqual) =~= seq!['/', '=']);
    assert(spelling(TokenKind::StarEqual) =~= seq!['*', '=']);
    assert(spelling(TokenKind::BangEqual) =~= seq!['!', '=']);
    assert(spelling(TokenKind::EqualEqual) =~= seq!['=', '=']);
    assert(spelling(TokenKind::GreaterEqual) =~= seq!['>', '=']);
    assert(spelling(TokenKind::LessEqual) =~= seq!['<', '=']);
    assert(spelling(TokenKind::And) =~= seq!['a', 'n', 'd']);
    assert(spelling(TokenKind::Or) =~= seq!['o', 'r']);
}

/// The tokens a step adds are written as spelled.
proof fn lemma_step_spelled(s: ScanView)
    requires
        0 <= s.current < s.source.len(),
        s.start == s.current,
    ensures
        forall|i: int| s.tokens.len() <= i < scan_step(s).tokens.len() && spelling(scan_step(s).tokens[i].kind).len() > 0
            ==> (#[trigger] scan_step(s).tokens[i]).lexeme == spelling(scan_step(s).tokens[i].kind)
            || (scan_step(s).tokens[i].kind is Slash && i > s.tokens.len() && scan_step(s).tokens[i - 1].kind is SlashEqual
                && scan_step(s).tokens[i].lexeme == scan_step(s).tokens[i - 1].lexeme),
{
    lemma_spellings();
    let src = s.source;
    let c = s.current;
    lemma_step_advances(s);
    assert(src.subrange(c, c + 1) =~= seq![src[c]]);
    if c + 1 < src.len() {
        assert(src.subrange(c, c + 2) =~= seq![src[c], src[c + 1]]);
    }
    lemma_runs(src, c + 1, '"');
    let t = scan_step(s);
    assert forall|i: int| s.tokens.len() <= i < t.tokens.len() && spelling(t.tokens[i].kind).len() > 0
        implies (#[trigger] t.tokens[i]).lexeme == spelling(t.tokens[i].kind)
            || (t.tokens[i].kind is Slash && i > s.tokens.len() && t.tokens[i - 1].kind is SlashEqual
                && t.tokens[i].lexeme == t.tokens[i - 1].lexeme) by {
        if i == s.tokens.len() + 1 {
            assert(t.tokens[i].kind is Slash);
        }
    }
}

/// Law: the tokens a scan produces are written in the source as their kind
/// is spelled: `==` for `EqualEqual`, `-` for `Minus`, `and` for `And` (the
/// `/` that follows a `/=`, over the same text, aside).
pub proof fn law_scanned_tokens_spelled(s: ScanView)
    requires
        spelled(s.tokens),
    ensures
        spelled(scan_all(s).tokens),
    decreases s.source.len() - s.current,
{
    if s.current >= s.source.len() || s.current < 0 {
        let t = scan_all(s).tokens;
        assert forall|i: int| 0 <= i < t.len() && spelling(t[i].kind).len() > 0 implies (#[trigger] t[i]).lexeme
            == spelling(t[i].kind) || (t[i].kind is Slash && i > 0 && t[i - 1].kind is SlashEqual
            && t[i].lexeme == t[i - 1].lexeme) by {
            if i < t.len() - 1 {
                assert(t[i] == s.tokens[i]);
                if i > 0 {
                    assert(t[i - 1] == s.tokens[i - 1]);
                }
            }
        }
    } else {
        let s0 = ScanView { start: s.current, ..s };
        lemma_step_tokens(s0);
        lemma_step_advances(s0);
        lemma_step_spelled(s0);
        let s1 = scan_step(s0);
        let n = s.tokens.len() as int;
        assert forall|i: int| 0 <= i < s1.tokens.len() && spelling(s1.tokens[i].kind).len() > 0 implies (#[trigger] s1.tokens[i]).lexeme
            == spelling(s1.tokens[i].kind) || (s1.tokens[i].kind is Slash && i > 0 && s1.tokens[i - 1].kind is SlashEqual
            && s1.tokens[i].lexeme == s1.tokens[i - 1].lexeme) by {
            if i < n {
                assert(s1.tokens[i] == s.tokens[i]);
                if i > 0 {
                    assert(s1.tokens[i - 1] == s.tokens[i - 1]);
                }
            }
        }
        law_scanned_tokens_spelled(s1);
    }
}

impl ScanError {
    /// The message shown for this error.
    pub fn message(&self) -> (m: String)
        ensures
            m@ == scan_error_message(*self),
    {
        let mut m = String::new();
        push_str(&mut m, "Erro na linha ");
        push_decimal(&mut m, self.line);
        match self.kind {
            ScanErrorKind::UnterminatedString => {
                push_str(&mut m, ": o texto iniciado com '\"' nunca foi fechado.\nDica: todo texto precisa começar e terminar com aspas, por exemplo: \"olá mundo\"");
            },
            ScanErrorKind::DigitBeforeLetter(c) => {
                push_str(&mut m, ": o número '");
                m.push(c);
                push_str(&mut m, "' não pode ser seguido de letras.\nDica: nomes de variáveis não podem começar com números. ");
            },
            ScanErrorKind::UnexpectedChar(c) => {
                push_str(&mut m, ": o caractere '");
                m.push(c);
                push_str(&mut m, "' não é reconhecido pela linguagem Selene.\nDica: verifique se não há um símbolo digitado por engano.");
            },
        }
        m
    }
}

/// The message shown for a scanning error.
pub open spec fn scan_error_message(e: ScanError) -> Seq<char> {
    let head = "Erro na linha "@ + decimal(e.line as nat);
    match e.kind {
        ScanErrorKind::UnterminatedString => head + ": o texto iniciado com '\"' nunca foi fechado.\nDica: todo texto precisa começar e terminar com aspas, por exemplo: \"olá mundo\""@,
        ScanErrorKind::DigitBeforeLetter(c) => head + ": o número '"@ + seq![c] + "' não pode ser seguido de letras.\nDica: nomes de variáveis não podem começar com números. "@,
        ScanErrorKind::UnexpectedChar(c) => head + ": o caractere '"@ + seq![c] + "' não é reconhecido pela linguagem Selene.\nDica: verifique se não há um símbolo digitado por engano."@,
    }
}

impl Scanner {
    /// The scanner's own bookkeeping is consistent.
    pub closed spec fn wf(&self) -> bool {
        &&& self.start <= self.current <= self.source.len()
        &&& self.source@.len() < u64::MAX
        &&& self.line <= self.current + 1
    }

    pub fn new(source: String) -> (s: Scanner)
        requires
            source@.len() < u64::MAX,
        ensures
            s.wf(),
            s@.source == source@,
            s@.tokens == Seq::<TokenView>::empty(),
            s@.errors == Seq::<ScanError>::empty(),
            s@.start == 0,
            s@.current == 0,
            s@.line == 1,
    {
        let s = Scanner {
            tokens: Vec::new(),
            errors: Vec::new(),
            start: 0,
            current: 0,
            line: 1,
            source: chars_of(&source),
        };
        assert(s@.tokens =~= Seq::<TokenView>::empty());
        s
    }

    /// The tokens produced so far.
    pub fn tokens(&self) -> (r: &Vec<Token>)
        ensures
            r@.map_values(|t: Token| t@) == self@.tokens,
    {
        &self.tokens
    }

    /// The errors found so far, in the order they were found.
    pub fn errors(&self) -> (r: &Vec<ScanError>)
        ensures
            r@ == self@.errors,
    {
        &self.errors
    }

    /// The tokens produced, taking them out of the scanner.
    pub fn into_tokens(self) -> (r: Vec<Token>)
        ensures
            r@.map_values(|t: Token| t@) == self@.tokens,
    {
        self.tokens
    }

    fn at(&self, i: usize) -> (c: char)
        ensures
            c == char_at(self.source@, i as int),
    {
        if i < self.source.len() {
            self.source[i]
        } else {
            '\0'
        }
    }

    fn is_alpha(c: char) -> (r: bool)
        ensures
            r == is_alpha(c),
    {
        c.is_alphabetic() || c == '_'
    }

    fn is_digit(c: char) -> (r: bool)
        ensures
            r == is_digit(c),
    {
        '0' <= c && c <= '9'
    }

    fn is_alpha_numeric(c: char) -> (r: bool)
        ensures
            r == is_alpha_numeric(c),
    {
        Self::is_alpha(c) || Self::is_digit(c)
    }

    /// Appends a token over `source[start..to]` on the current line.
    fn push_token(&mut self, token_type: TokenType, to: usize)
        requires
            old(self).start <= to <= old(self).source@.len(),
        ensures
            final(self)@ == (ScanView {
                tokens: old(self)@.tokens.push(lexed(old(self)@, token_type@, to as int, old(self)@.line)),
                ..old(self)@
            }),
            final(self).tokens@.len() > 0,
            final(self).tokens@.last().token_type == token_type,
    {
        let lexeme = string_from_chars(&self.source, self.start, to);
        let t = Token::new(token_type, lexeme, self.line);
        self.tokens.push(t);
        assert(self@.tokens =~= old(self)@.tokens.push(lexed(old(self)@, t.token_type@, to as int, old(self)@.line)));
    }

    fn emit(&mut self, token_type: TokenType, n: usize)
        requires
            old(self).current + n <= old(self).source.len(),
            old(self).start <= old(self).current,
            old(self).current + n <= old(self).source@.len(),
        ensures
            final(self)@ == emit(old(self)@, token_type@, n as int),
    {
        self.push_token(token_type, self.current + n);
        self.current = self.current + n;
    }

    fn one_or_two(&mut self, second: char, long: TokenType, short: TokenType)
        requires
            second != '\0',
            old(self).start <= old(self).current < old(self).source.len(),
        ensures
            final(self)@ == one_or_two(old(self)@, second, long@, short@),
    {
        if self.at(self.current + 1) == second {
            self.emit(long, 2);
        } else {
            self.emit(short, 1);
        }
    }

    fn fail(&mut self, kind: ScanErrorKind)
        requires
            old(self).current < old(self).source.len(),
        ensures
            final(self)@ == fail(old(self)@, kind),
    {
        self.errors.push(ScanError { line: self.line, kind });
        self.current = self.current + 1;
    }

    fn string(&mut self)
        requires
            old(self).wf(),
            old(self).current < old(self).source@.len(),
        ensures
            final(self).wf(),
            final(self)@ == scan_string(old(self)@),
    {
        let len = self.source.len();
        let mut line = self.line;
        let mut j = self.current + 1;
        while j < len && self.source[j] != '"'
            invariant
                self == old(self),
                len == self.source@.len(),
                self.current + 1 <= j <= len,
                find_char(self.source@, self.current + 1, '"') == find_char(self.source@, j as int, '"'),
                line == self.line + newlines(self.source@, self.current + 1, j as int),
                line <= j,
                self.wf(),
            decreases len - j,
        {
            if self.source[j] == '\n' {
                line = line + 1;
            }
            j = j + 1;
        }
        self.line = line;
        if j >= len {
            self.current = j;
            self.errors.push(ScanError { line, kind: ScanErrorKind::UnterminatedString });
        } else {
            let text = string_from_chars(&self.source, self.start + 1, j);
            self.push_token(TokenType::StringLiteral(text), j + 1);
            self.current = j + 1;
        }
    }

    fn digits_from(&self, i: usize) -> (e: usize)
        requires
            i <= self.source@.len(),
        ensures
            e == digits_end(self.source@, i as int),
            i <= e <= self.source@.len(),
    {
        let mut j = i;
        while j < self.source.len() && Self::is_digit(self.source[j])
            invariant
                i <= j <= self.source@.len(),
                digits_end(self.source@, i as int) == digits_end(self.source@, j as int),
            decreases self.source@.len() - j,
        {
            j = j + 1;
        }
        j
    }

    fn number(&mut self)
        requires
            old(self).wf(),
            old(self).current < old(self).source.len(),
        ensures
            final(self).wf(),
            final(self)@ == scan_number(old(self)@),
    {
        let d = self.digits_from(self.current + 1);
        let e = if self.at(d) == '.' && Self::is_digit(self.at(d + 1)) {
            self.digits_from(d + 1)
        } else {
            d
        };
        let text = string_from_chars(&self.source, self.start, e);
        self.push_token(TokenType::Number(text), e);
        self.current = e;
    }

    fn identifier(&mut self)
        requires
            old(self).wf(),
            old(self).current < old(self).source.len(),
        ensures
            final(self).wf(),
            final(self)@ == scan_word(old(self)@),
    {
        let mut j = self.current + 1;
        while j < self.source.len() && Self::is_alpha_numeric(self.source[j])
            invariant
                old(self).current + 1 <= j <= self.source@.len(),
                self == old(self),
                word_end(self.source@, old(self).current + 1) == word_end(self.source@, j as int),
            decreases self.source@.len() - j,
        {
            j = j + 1;
        }
        let token_type = match keyword(&self.source, self.start, j) {
            Some(k) => k,
            None => TokenType::Identifier(string_from_chars(&self.source, self.start, j)),
        };
        self.push_token(token_type, j);
        self.current = j;
    }

    /// Scans the lexeme that starts at the current position.
    pub fn scan_token(&mut self)
        requires
            old(self).wf(),
            old(self)@.current < old(self)@.source.len(),
        ensures
            final(self).wf(),
            final(self)@ == scan_step(old(self)@),
            old(self)@.current < final(self)@.current,
    {
        proof {
            lemma_step_advances(self@);
        }
        let c = self.source[self.current];
        let next = self.at(self.current + 1);
        if c == '(' {
            self.emit(TokenType::LeftParen, 1);
        } else if c == ')' {
            self.emit(TokenType::RightParen, 1);
        } else if c == '{' {
            self.emit(TokenType::LeftBrace, 1);
        } else if c == '}' {
            self.emit(TokenType::RightBrace, 1);
        } else if c == ',' {
            self.emit(TokenType::Comma, 1);
        } else if c == '.' {
            self.emit(TokenType::Dot, 1);
        } else if c == ';' {
            self.emit(TokenType::Semicolon, 1);
        } else if c == '*' {
            self.one_or_two('=', TokenType::StarEqual, TokenType::Star);
        } else if c == '+' {
            self.one_or_two('=', TokenType::PlusEqual, TokenType::Plus);
        } else if c == '-' {
            self.one_or_two('=', TokenType::MinusEqual, TokenType::Minus);
        } else if c == '/' {
            if next == '=' {
                self.emit(TokenType::SlashEqual, 2);
                self.push_token(TokenType::Slash, self.current);
            } else if next == '/' {
                let mut j = self.current + 2;
                while j < self.source.len() && self.source[j] != '\n'
                    invariant
                        old(self).current + 2 <= j <= self.source@.len(),
                        self == old(self),
                        find_char(self.source@, old(self).current + 2, '\n') == find_char(self.source@, j as int, '\n'),
                    decreases self.source@.len() - j,
                {
                    j = j + 1;
                }
                self.current = j;
                self.line = self.line + 1;
            } else {
                self.emit(TokenType::Slash, 1);
            }
        } else if c == '=' {
            self.one_or_two('=', TokenType::EqualEqual, TokenType::Equal);
        } else if c == '!' {
            self.one_or_two('=', TokenType::BangEqual, TokenType::Bang);
        } else if c == '>' {
            self.one_or_two('=', TokenType::GreaterEqual, TokenType::Greater);
        } else if c == '<' {
            self.one_or_two('=', TokenType::LessEqual, TokenType::Less);
        } else if c == ' ' || c == '\t' {
            self.current = self.current + 1;
        } else if c == '\n' {
            self.current = self.current + 1;
            self.line = self.line + 1;
        } else if c == '"' {
            self.string();
        } else if Self::is_digit(c) {
            if Self::is_alpha(next) {
                self.fail(ScanErrorKind::DigitBeforeLetter(c));
            } else {
                self.number();
            }
        } else if ('a' <= c && c <= 'z') || ('A' <= c && c <= 'Z') || c == '_' || c.is_alphabetic() {
            self.identifier();
        } else {
            self.fail(ScanErrorKind::UnexpectedChar(c));
        }
    }

    /// Scans the rest of the source, then appends the end-of-file token.
    pub fn scan_tokens(&mut self) -> (r: &Vec<Token>)
        requires
            old(self).wf(),
        ensures
            final(self).wf(),
            final(self)@ == scan_all(old(self)@),
            r@.map_values(|t: Token| t@) == final(self)@.tokens,
            r@.len() > 0,
            r@.last().token_type is EOF,
    {
        while self.current < self.source.len()
            invariant
                self.wf(),
                scan_all(self@) == scan_all(old(self)@),
            decreases self.source@.len() - self.current,
        {
            self.start = self.current;
            self.scan_token();
        }
        self.start = self.current;
        self.push_token(TokenType::EOF, self.current);
        assert(self@.source.subrange(self@.current, self@.current) =~= Seq::<char>::empty());
        &self.tokens
    }
}

} // verus!
