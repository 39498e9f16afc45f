//! The KelpyShark lexer.
//!
//! Turns source text into tokens: identifiers, keywords, string and number
//! literals, operators, punctuation and newlines, skipping blanks and
//! comments (`#` to the end of the line, `###` ... `###` over several lines).
//! The spec functions below define the token stream of a source as a
//! function of its characters; `Lexer::tokenize` is proved to produce it.
use vstd::prelude::*;
use crate::error::{KelpyError, KelpyResult, SourceLocation};
use vstd::std_specs::iter::IteratorSpec;
use crate::text::{numeral_display, numeral_to_display, char_is_alphabetic, char_is_alphanumeric, is_alphabetic, is_alphanumeric, push_char, text_is};

verus! {

/// The kinds of tokens.
#[derive(Debug, Clone, PartialEq)]
pub enum TokenKind {
    // Literals
    Identifier(String),
    StringLiteral(String),
    /// A number literal, held as its numeral: digits with at most one `.`
    /// between digits, as written in the source.
    NumberLiteral(String),
    BooleanLiteral(bool),
    // Keywords
    Def,
    If,
    Elif,
    Else,
    While,
    For,
    In,
    Return,
    Import,
    True,
    False,
    And,
    Or,
    Not,
    Print,
    Break,
    Continue,
    Try,
    Catch,
    Throw,
    Class,
    Null,
    New,
    Self_,
    // Operators
    Plus,
    Minus,
    Star,
    Slash,
    Percent,
    Equals,
    EqualEqual,
    NotEqual,
    LessThan,
    LessEqual,
    GreaterThan,
    GreaterEqual,
    PlusEquals,
    MinusEquals,
    StarEquals,
    SlashEquals,
    // Punctuation
    LParen,
    RParen,
    LBrace,
    RBrace,
    LBracket,
    RBracket,
    Comma,
    Colon,
    Dot,
    // Special
    Newline,
    Eof,
}

/// The model of a token kind: the three kinds that carry text carry it as a
/// character sequence; every other kind stands for itself.
pub enum KindView {
    Identifier(Seq<char>),
    StringLiteral(Seq<char>),
    NumberLiteral(Seq<char>),
    Plain(TokenKind),
}

impl View for TokenKind {
    type V = KindView;

    open spec fn view(&self) -> KindView {
        match self {
            TokenKind::Identifier(s) => KindView::Identifier(s@),
            TokenKind::StringLiteral(s) => KindView::StringLiteral(s@),
            TokenKind::NumberLiteral(s) => KindView::NumberLiteral(s@),
            _ => KindView::Plain(*self),
        }
    }
}

/// A token: its kind and where it starts.
#[derive(Debug, Clone, PartialEq)]
pub struct Token {
    pub kind: TokenKind,
    pub location: SourceLocation,
}

/// The model of a token.
pub struct TokenView {
    pub kind: KindView,
    pub location: SourceLocation,
}

impl View for Token {
    type V = TokenView;

    open spec fn view(&self) -> TokenView {
        TokenView { kind: self.kind@, location: self.location }
    }
}

impl Token {
    /// A token of the given kind at the given line and column.
    pub fn new(kind: TokenKind, line: usize, column: usize) -> (t: Token)
        ensures
            t.kind == kind,
            t.location == (SourceLocation { line, column }),
    {
        Token { kind, location: SourceLocation { line, column } }
    }
}

/// The display text of a token kind, as error messages show it.
pub open spec fn kind_text(k: KindView) -> Seq<char> {
    match k {
        KindView::Identifier(s) => "IDENTIFIER("@ + s + ")"@,
        KindView::StringLiteral(s) => "STRING(\""@ + s + "\")"@,
        KindView::NumberLiteral(s) => "NUMBER("@ + numeral_display(s) + ")"@,
        KindView::Plain(t) => match t {
            TokenKind::BooleanLiteral(b) => if b { "BOOL(true)"@ } else { "BOOL(false)"@ },
            TokenKind::Def => "DEF"@,
            TokenKind::If => "IF"@,
            TokenKind::Elif => "ELIF"@,
            TokenKind::Else => "ELSE"@,
            TokenKind::While => "WHILE"@,
            TokenKind::For => "FOR"@,
            TokenKind::In => "IN"@,
            TokenKind::Return => "RETURN"@,
            TokenKind::Import => "IMPORT"@,
            TokenKind::True => "TRUE"@,
            TokenKind::False => "FALSE"@,
            TokenKind::And => "AND"@,
            TokenKind::Or => "OR"@,
            TokenKind::Not => "NOT"@,
            TokenKind::Print => "PRINT"@,
            TokenKind::Break => "BREAK"@,
            TokenKind::Continue => "CONTINUE"@,
            TokenKind::Try => "TRY"@,
            TokenKind::Catch => "CATCH"@,
            TokenKind::Throw => "THROW"@,
            TokenKind::Class => "CLASS"@,
            TokenKind::Null => "NULL"@,
            TokenKind::New => "NEW"@,
            TokenKind::Self_ => "SELF"@,
            TokenKind::Plus => "+"@,
            TokenKind::Minus => "-"@,
            TokenKind::Star => "*"@,
            TokenKind::Slash => "/"@,
            TokenKind::Percent => "%"@,
            TokenKind::Equals => "="@,
            TokenKind::EqualEqual => "=="@,
            TokenKind::NotEqual => "!="@,
            TokenKind::LessThan => "<"@,
            TokenKind::LessEqual => "<="@,
            TokenKind::GreaterThan => ">"@,
            TokenKind::GreaterEqual => ">="@,
            TokenKind::PlusEquals => "+="@,
            TokenKind::MinusEquals => "-="@,
            TokenKind::StarEquals => "*="@,
            TokenKind::SlashEquals => "/="@,
            TokenKind::LParen => "("@,
            TokenKind::RParen => ")"@,
            TokenKind::LBrace => "{"@,
            TokenKind::RBrace => "}"@,
            TokenKind::LBracket => "["@,
            TokenKind::RBracket => "]"@,
            TokenKind::Comma => ","@,
            TokenKind::Colon => ":"@,
            TokenKind::Dot => "."@,
            TokenKind::Newline => "NEWLINE"@,
            TokenKind::Eof => "EOF"@,
            _ => Seq::empty(),
        },
    }
}

impl TokenKind {
    /// The display text of the kind (`IDENTIFIER(x)`, `NUMBER(3.14)`, `==`, `EOF`, ...).
    pub fn to_display_string(&self) -> (res: String)
        ensures
            res@ == kind_text(self@),
    {
        match self {
            TokenKind::Identifier(s) => {
                let mut r = String::from_str("IDENTIFIER(");
                r.append(s.as_str());
                r.append(")");
                r
            },
            TokenKind::StringLiteral(s) => {
                let mut r = String::from_str("STRING(\"");
                r.append(s.as_str());
                r.append("\")");
                r
            },
            TokenKind::NumberLiteral(s) => {
                let mut r = String::from_str("NUMBER(");
                let n = numeral_to_display(s.as_str());
                r.append(n.as_str());
                r.append(")");
                r
            },
            TokenKind::BooleanLiteral(b) => if *b { String::from_str("BOOL(true)") } else { String::from_str("BOOL(false)") },
            TokenKind::Def => String::from_str("DEF"),
            TokenKind::If => String::from_str("IF"),
            TokenKind::Elif => String::from_str("ELIF"),
            TokenKind::Else => String::from_str("ELSE"),
            TokenKind::While => String::from_str("WHILE"),
            TokenKind::For => String::from_str("FOR"),
            TokenKind::In => String::from_str("IN"),
            TokenKind::Return => String::from_str("RETURN"),
            TokenKind::Import => String::from_str("IMPORT"),
            TokenKind::True => String::from_str("TRUE"),
            TokenKind::False => String::from_str("FALSE"),
            TokenKind::And => String::from_str("AND"),
            TokenKind::Or => String::from_str("OR"),
            TokenKind::Not => String::from_str("NOT"),
            TokenKind::Print => String::from_str("PRINT"),
            TokenKind::Break => String::from_str("BREAK"),
            TokenKind::Continue => String::from_str("CONTINUE"),
            TokenKind::Try => String::from_str("TRY"),
            TokenKind::Catch => String::from_str("CATCH"),
            TokenKind::Throw => String::from_str("THROW"),
            TokenKind::Class => String::from_str("CLASS"),
            TokenKind::Null => String::from_str("NULL"),
            TokenKind::New => String::from_str("NEW"),
            TokenKind::Self_ => String::from_str("SELF"),
            TokenKind::Plus => String::from_str("+"),
            TokenKind::Minus => String::from_str("-"),
            TokenKind::Star => String::from_str("*"),
            TokenKind::Slash => String::from_str("/"),
            TokenKind::Percent => String::from_str("%"),
            TokenKind::Equals => String::from_str("="),
            TokenKind::EqualEqual => String::from_str("=="),
            TokenKind::NotEqual => String::from_str("!="),
            TokenKind::LessThan => String::from_str("<"),
            TokenKind::LessEqual => String::from_str("<="),
            TokenKind::GreaterThan => String::from_str(">"),
            TokenKind::GreaterEqual => String::from_str(">="),
            TokenKind::PlusEquals => String::from_str("+="),
            TokenKind::MinusEquals => String::from_str("-="),
            TokenKind::StarEquals => String::from_str("*="),
            TokenKind::SlashEquals => String::from_str("/="),
            TokenKind::LParen => String::from_str("("),
            TokenKind::RParen => String::from_str(")"),
            TokenKind::LBrace => String::from_str("{"),
            TokenKind::RBrace => String::from_str("}"),
            TokenKind::LBracket => String::from_str("["),
            TokenKind::RBracket => String::from_str("]"),
            TokenKind::Comma => String::from_str(","),
            TokenKind::Colon => String::from_str(":"),
            TokenKind::Dot => String::from_str("."),
            TokenKind::Newline => String::from_str("NEWLINE"),
            TokenKind::Eof => String::from_str("EOF"),
        }
    }
}

/// Whether two token kinds are the same kind with the same text.
pub fn kinds_equal(a: &TokenKind, b: &TokenKind) -> (r: bool)
    ensures
        r == (a@ == b@),
{
    match (a, b) {
        (TokenKind::Identifier(x), TokenKind::Identifier(y)) => text_is(x.as_str(), y.as_str()),
        (TokenKind::StringLiteral(x), TokenKind::StringLiteral(y)) => text_is(x.as_str(), y.as_str()),
        (TokenKind::NumberLiteral(x), TokenKind::NumberLiteral(y)) => text_is(x.as_str(), y.as_str()),
        (TokenKind::BooleanLiteral(x), TokenKind::BooleanLiteral(y)) => *x == *y,
        (TokenKind::Def, TokenKind::Def) => true,
        (TokenKind::If, TokenKind::If) => true,
        (TokenKind::Elif, TokenKind::Elif) => true,
        (TokenKind::Else, TokenKind::Else) => true,
        (TokenKind::While, TokenKind::While) => true,
        (TokenKind::For, TokenKind::For) => true,
        (TokenKind::In, TokenKind::In) => true,
        (TokenKind::Return, TokenKind::Return) => true,
        (TokenKind::Import, TokenKind::Import) => true,
        (TokenKind::True, TokenKind::True) => true,
        (TokenKind::False, TokenKind::False) => true,
        (TokenKind::And, TokenKind::And) => true,
        (TokenKind::Or, TokenKind::Or) => true,
        (TokenKind::Not, TokenKind::Not) => true,
        (TokenKind::Print, TokenKind::Print) => true,
        (TokenKind::Break, TokenKind::Break) => true,
        (TokenKind::Continue, TokenKind::Continue) => true,
        (TokenKind::Try, TokenKind::Try) => true,
        (TokenKind::Catch, TokenKind::Catch) => true,
        (TokenKind::Throw, TokenKind::Throw) => true,
        (TokenKind::Class, TokenKind::Class) => true,
        (TokenKind::Null, TokenKind::Null) => true,
        (TokenKind::New, TokenKind::New) => true,
        (TokenKind::Self_, TokenKind::Self_) => true,
        (TokenKind::Plus, TokenKind::Plus) => true,
        (TokenKind::Minus, TokenKind::Minus) => true,
        (TokenKind::Star, TokenKind::Star) => true,
        (TokenKind::Slash, TokenKind::Slash) => true,
        (TokenKind::Percent, TokenKind::Percent) => true,
        (TokenKind::Equals, TokenKind::Equals) => true,
        (TokenKind::EqualEqual, TokenKind::EqualEqual) => true,
        (TokenKind::NotEqual, TokenKind::NotEqual) => true,
        (TokenKind::LessThan, TokenKind::LessThan) => true,
        (TokenKind::LessEqual, TokenKind::LessEqual) => true,
        (TokenKind::GreaterThan, TokenKind::GreaterThan) => true,
        (TokenKind::GreaterEqual, TokenKind::GreaterEqual) => true,
        (TokenKind::PlusEquals, TokenKind::PlusEquals) => true,
        (TokenKind::MinusEquals, TokenKind::MinusEquals) => true,
        (TokenKind::StarEquals, TokenKind::StarEquals) => true,
        (TokenKind::SlashEquals, TokenKind::SlashEquals) => true,
        (TokenKind::LParen, TokenKind::LParen) => true,
        (TokenKind::RParen, TokenKind::RParen) => true,
        (TokenKind::LBrace, TokenKind::LBrace) => true,
        (TokenKind::RBrace, TokenKind::RBrace) => true,
        (TokenKind::LBracket, TokenKind::LBracket) => true,
        (TokenKind::RBracket, TokenKind::RBracket) => true,
        (TokenKind::Comma, TokenKind::Comma) => true,
        (TokenKind::Colon, TokenKind::Colon) => true,
        (TokenKind::Dot, TokenKind::Dot) => true,
        (TokenKind::Newline, TokenKind::Newline) => true,
        (TokenKind::Eof, TokenKind::Eof) => true,
        _ => false,
    }
}

// ──────────────────────────────────────────────
//  Positions
// ──────────────────────────────────────────────

/// The character at index `p`, if any.
pub open spec fn char_at(src: Seq<char>, p: int) -> Option<char> {
    if 0 <= p < src.len() { Some(src[p]) } else { None }
}

/// The 1-based line of index `p`: one more than the newlines before it.
pub open spec fn line_at(src: Seq<char>, p: nat) -> nat
    decreases p,
{
    if p == 0 {
        1
    } else if p - 1 < src.len() && src[p - 1] == '\n' {
        line_at(src, (p - 1) as nat) + 1
    } else {
        line_at(src, (p - 1) as nat)
    }
}

/// The 1-based column of index `p`: one more than the characters between
/// the last newline before it and it.
pub open spec fn col_at(src: Seq<char>, p: nat) -> nat
    decreases p,
{
    if p == 0 {
        1
    } else if p - 1 < src.len() && src[p - 1] == '\n' {
        1
    } else {
        col_at(src, (p - 1) as nat) + 1
    }
}

/// Whether `loc` names the line and column of index `p`.
pub open spec fn located_at(loc: SourceLocation, src: Seq<char>, p: nat) -> bool {
    loc.line == line_at(src, p) && loc.column == col_at(src, p)
}

/// Lines and columns never exceed one more than the index.
pub proof fn lemma_line_col_bounds(src: Seq<char>, p: nat)
    ensures
        1 <= line_at(src, p) <= p + 1,
        1 <= col_at(src, p) <= p + 1,
    decreases p,
{
    if p > 0 {
        lemma_line_col_bounds(src, (p - 1) as nat);
    }
}

// ──────────────────────────────────────────────
//  Character classes
// ──────────────────────────────────────────────

/// An ASCII decimal digit.
pub open spec fn is_digit(c: char) -> bool {
    '0' <= c && c <= '9'
}

/// A blank: space, tab or carriage return (a newline is a token).
pub open spec fn is_blank(c: char) -> bool {
    c == ' ' || c == '\t' || c == '\r'
}

/// A character that can start an identifier or keyword.
pub open spec fn starts_identifier(c: char) -> bool {
    char_is_alphabetic(c) || c == '_'
}

/// A character that can continue an identifier or keyword.
pub open spec fn continues_identifier(c: char) -> bool {
    char_is_alphanumeric(c) || c == '_'
}

// ──────────────────────────────────────────────
//  The token grammar
// ──────────────────────────────────────────────

/// The first index at or after `p` that is not a blank.
pub open spec fn skip_blanks(src: Seq<char>, p: nat) -> nat
    decreases src.len() - p,
{
    if p < src.len() && is_blank(src[p as int]) { skip_blanks(src, p + 1) } else { p }
}

/// The first index at or after `p` that holds a newline, or the end.
pub open spec fn line_end(src: Seq<char>, p: nat) -> nat
    decreases src.len() - p,
{
    if p < src.len() && src[p as int] != '\n' { line_end(src, p + 1) } else { p }
}

/// Whether `###` starts at index `p`.
pub open spec fn triple_hash_at(src: Seq<char>, p: int) -> bool {
    char_at(src, p) == Some('#') && char_at(src, p + 1) == Some('#') && char_at(src, p + 2) == Some('#')
}

/// The index just after the first `###` at or after `p`, if there is one.
pub open spec fn block_comment_end(src: Seq<char>, p: nat) -> Option<nat>
    decreases src.len() - p,
{
    if p >= src.len() {
        None
    } else if triple_hash_at(src, p as int) {
        Some(p + 3)
    } else {
        block_comment_end(src, p + 1)
    }
}

/// The end of the numeral that continues at `p`; `has_dot` says whether a
/// `.` was already taken.  A `.` is taken once, and only before a digit.
pub open spec fn numeral_end(src: Seq<char>, p: nat, has_dot: bool) -> nat
    decreases src.len() - p,
{
    if p < src.len() && is_digit(src[p as int]) {
        numeral_end(src, p + 1, has_dot)
    } else if p < src.len() && src[p as int] == '.' && !has_dot && p + 1 < src.len() && is_digit(src[p + 1 as int]) {
        numeral_end(src, p + 1, true)
    } else {
        p
    }
}

/// The end of the identifier that continues at `p`.
pub open spec fn identifier_end(src: Seq<char>, p: nat) -> nat
    decreases src.len() - p,
{
    if p < src.len() && continues_identifier(src[p as int]) { identifier_end(src, p + 1) } else { p }
}

/// The kind of a word: its keyword, or an identifier.
pub open spec fn word_kind(w: Seq<char>) -> KindView {
    if w == "def"@ { KindView::Plain(TokenKind::Def) }
    else if w == "if"@ { KindView::Plain(TokenKind::If) }
    else if w == "elif"@ { KindView::Plain(TokenKind::Elif) }
    else if w == "else"@ { KindView::Plain(TokenKind::Else) }
    else if w == "while"@ { KindView::Plain(TokenKind::While) }
    else if w == "for"@ { KindView::Plain(TokenKind::For) }
    else if w == "in"@ { KindView::Plain(TokenKind::In) }
    else if w == "return"@ { KindView::Plain(TokenKind::Return) }
    else if w == "import"@ { KindView::Plain(TokenKind::Import) }
    else if w == "true"@ { KindView::Plain(TokenKind::True) }
    else if w == "false"@ { KindView::Plain(TokenKind::False) }
    else if w == "and"@ { KindView::Plain(TokenKind::And) }
    else if w == "or"@ { KindView::Plain(TokenKind::Or) }
    else if w == "not"@ { KindView::Plain(TokenKind::Not) }
    else if w == "print"@ { KindView::Plain(TokenKind::Print) }
    else if w == "break"@ { KindView::Plain(TokenKind::Break) }
    else if w == "continue"@ { KindView::Plain(TokenKind::Continue) }
    else if w == "try"@ { KindView::Plain(TokenKind::Try) }
    else if w == "catch"@ { KindView::Plain(TokenKind::Catch) }
    else if w == "throw"@ { KindView::Plain(TokenKind::Throw) }
    else if w == "class"@ { KindView::Plain(TokenKind::Class) }
    else if w == "null"@ { KindView::Plain(TokenKind::Null) }
    else if w == "new"@ { KindView::Plain(TokenKind::New) }
    else if w == "self"@ { KindView::Plain(TokenKind::Self_) }
    else { KindView::Identifier(w) }
}

/// What one lexing step yields: a token with its start index and the index
/// after it, or an error with its message, the index it is reported at and
/// the index where the lexer stopped.
pub enum LexStep {
    Token { kind: KindView, start: nat, next: nat },
    Failure { message: Seq<char>, at: nat, cursor: nat },
}

/// The character an escape sequence `\c` stands for, or `None` when `\c`
/// stands for itself.
pub open spec fn escaped(c: char) -> Option<char> {
    if c == 'n' { Some('\n') }
    else if c == 't' { Some('\t') }
    else if c == '\\' { Some('\\') }
    else if c == '"' { Some('"') }
    else { None }
}

/// The value `acc` of a string literal opened at `start`, continued from `p`.
pub open spec fn string_step(src: Seq<char>, start: nat, p: nat, acc: Seq<char>) -> LexStep
    decreases src.len() - p,
{
    if p >= src.len() || src[p as int] == '\n' {
        LexStep::Failure { message: "Unterminated string literal"@, at: start, cursor: p }
    } else if src[p as int] == '"' {
        LexStep::Token { kind: KindView::StringLiteral(acc), start, next: p + 1 }
    } else if src[p as int] == '\\' {
        if p + 1 >= src.len() {
            LexStep::Failure { message: "Unterminated escape sequence"@, at: p + 1, cursor: p + 1 }
        } else {
            let c = src[p + 1 as int];
            let acc2 = match escaped(c) {
                Some(e) => acc.push(e),
                None => acc.push('\\').push(c),
            };
            string_step(src, start, p + 2, acc2)
        }
    } else {
        string_step(src, start, p + 1, acc.push(src[p as int]))
    }
}

/// The token of an operator or punctuation character at `p`, which may take
/// a following `=`.
pub open spec fn operator_step(src: Seq<char>, p: nat) -> LexStep {
    let c = src[p as int];
    let eq_next = char_at(src, p + 1 as int) == Some('=');
    let one = |k: TokenKind| LexStep::Token { kind: KindView::Plain(k), start: p, next: p + 1 };
    let two = |k: TokenKind| LexStep::Token { kind: KindView::Plain(k), start: p, next: p + 2 };
    if c == '+' { if eq_next { two(TokenKind::PlusEquals) } else { one(TokenKind::Plus) } }
    else if c == '-' { if eq_next { two(TokenKind::MinusEquals) } else { one(TokenKind::Minus) } }
    else if c == '*' { if eq_next { two(TokenKind::StarEquals) } else { one(TokenKind::Star) } }
    else if c == '/' { if eq_next { two(TokenKind::SlashEquals) } else { one(TokenKind::Slash) } }
    else if c == '%' { one(TokenKind::Percent) }
    else if c == '(' { one(TokenKind::LParen) }
    else if c == ')' { one(TokenKind::RParen) }
    else if c == '{' { one(TokenKind::LBrace) }
    else if c == '}' { one(TokenKind::RBrace) }
    else if c == '[' { one(TokenKind::LBracket) }
    else if c == ']' { one(TokenKind::RBracket) }
    else if c == ',' { one(TokenKind::Comma) }
    else if c == ':' { one(TokenKind::Colon) }
    else if c == '.' { one(TokenKind::Dot) }
    else if c == '=' { if eq_next { two(TokenKind::EqualEqual) } else { one(TokenKind::Equals) } }
    else if c == '!' {
        if eq_next {
            two(TokenKind::NotEqual)
        } else {
            LexStep::Failure { message: "Unexpected character: '!'  (did you mean '!='?)"@, at: p + 1, cursor: p + 1 }
        }
    }
    else if c == '<' { if eq_next { two(TokenKind::LessEqual) } else { one(TokenKind::LessThan) } }
    else if c == '>' { if eq_next { two(TokenKind::GreaterEqual) } else { one(TokenKind::GreaterThan) } }
    else {
        LexStep::Failure { message: "Unexpected character: '"@ + seq![c] + "'"@, at: p + 1, cursor: p + 1 }
    }
}

pub proof fn lemma_skip_blanks(src: Seq<char>, p: nat)
    ensures
        p <= src.len() ==> p <= skip_blanks(src, p) <= src.len(),
        p > src.len() ==> skip_blanks(src, p) == p,
    decreases src.len() - p,
{
    if p < src.len() && is_blank(src[p as int]) {
        lemma_skip_blanks(src, p + 1);
    }
}

pub proof fn lemma_line_end(src: Seq<char>, p: nat)
    requires
        p <= src.len(),
    ensures
        p <= line_end(src, p) <= src.len(),
    decreases src.len() - p,
{
    if p < src.len() && src[p as int] != '\n' {
        lemma_line_end(src, p + 1);
    }
}

pub proof fn lemma_block_comment_end(src: Seq<char>, p: nat)
    ensures
        block_comment_end(src, p) matches Some(r) ==> p + 3 <= r <= src.len(),
    decreases src.len() - p,
{
    if p < src.len() && !triple_hash_at(src, p as int) {
        lemma_block_comment_end(src, p + 1);
    }
}

/// The next step of lexing from index `p`: blanks are skipped, and a
/// comment is skipped together with what follows it up to the next token.
pub open spec fn next_step(src: Seq<char>, p: nat) -> LexStep
    decreases src.len() - p, 1nat,
{
    let q = skip_blanks(src, p);
    if q >= src.len() {
        LexStep::Token { kind: KindView::Plain(TokenKind::Eof), start: q, next: q }
    } else {
        let c = src[q as int];
        if c == '\n' {
            LexStep::Token { kind: KindView::Plain(TokenKind::Newline), start: q, next: q + 1 }
        } else if c == '#' {
            proof { lemma_skip_blanks(src, p); }
            comment_step(src, q)
        } else if c == '"' {
            string_step(src, q, q + 1, Seq::empty())
        } else if is_digit(c) {
            let e = numeral_end(src, q, false);
            LexStep::Token { kind: KindView::NumberLiteral(src.subrange(q as int, e as int)), start: q, next: e }
        } else if starts_identifier(c) {
            let e = identifier_end(src, q + 1);
            LexStep::Token { kind: word_kind(src.subrange(q as int, e as int)), start: q, next: e }
        } else {
            operator_step(src, q)
        }
    }
}

/// The step after a comment that starts at `q`.
pub open spec fn comment_step(src: Seq<char>, q: nat) -> LexStep
    decreases src.len() - q, 0nat,
{
    if q < src.len() {
        if triple_hash_at(src, q as int) {
            match block_comment_end(src, q + 3) {
                Some(r) => {
                    proof { lemma_block_comment_end(src, q + 3); }
                    next_step(src, r)
                },
                None => LexStep::Failure { message: "Unterminated multi-line comment"@, at: q, cursor: src.len() },
            }
        } else {
            proof { lemma_line_end(src, q + 1); }
            next_step(src, line_end(src, q + 1))
        }
    } else {
        LexStep::Token { kind: KindView::Plain(TokenKind::Eof), start: q, next: q }
    }
}


// ──────────────────────────────────────────────
//  Progress
// ──────────────────────────────────────────────

/// Where lexing stands after a step: after the token, or where it stopped.
pub open spec fn step_end(step: LexStep) -> nat {
    match step {
        LexStep::Token { next, .. } => next,
        LexStep::Failure { cursor, .. } => cursor,
    }
}

/// A step from `p` stays within the source, a token starts at or after `p`,
/// and every token but the end of input is non-empty.
pub open spec fn step_in_bounds(src: Seq<char>, p: nat, step: LexStep) -> bool {
    match step {
        LexStep::Token { kind, start, next } => {
            &&& p <= start <= next <= src.len()
            &&& (kind == KindView::Plain(TokenKind::Eof)) == (start == src.len())
            &&& kind == KindView::Plain(TokenKind::Eof) ==> next == start
            &&& kind != KindView::Plain(TokenKind::Eof) ==> start < next
        },
        LexStep::Failure { at, cursor, .. } => p <= cursor <= src.len() && at <= src.len(),
    }
}

proof fn lemma_string_step(src: Seq<char>, start: nat, p: nat, acc: Seq<char>)
    requires
        start < p <= src.len(),
    ensures
        step_in_bounds(src, start, string_step(src, start, p, acc)),
    decreases src.len() - p,
{
    if p >= src.len() || src[p as int] == '\n' {
    } else if src[p as int] == '"' {
    } else if src[p as int] == '\\' {
        if p + 1 < src.len() {
            let c = src[p + 1 as int];
            let acc2 = match escaped(c) {
                Some(e) => acc.push(e),
                None => acc.push('\\').push(c),
            };
            lemma_string_step(src, start, p + 2, acc2);
        }
    } else {
        lemma_string_step(src, start, p + 1, acc.push(src[p as int]));
    }
}

proof fn lemma_numeral_end(src: Seq<char>, p: nat, has_dot: bool)
    requires
        p <= src.len(),
    ensures
        p <= numeral_end(src, p, has_dot) <= src.len(),
    decreases src.len() - p,
{
    if p < src.len() && is_digit(src[p as int]) {
        lemma_numeral_end(src, p + 1, has_dot);
    } else if p < src.len() && src[p as int] == '.' && !has_dot && p + 1 < src.len() && is_digit(src[p + 1 as int]) {
        lemma_numeral_end(src, p + 1, true);
    }
}

proof fn lemma_identifier_end(src: Seq<char>, p: nat)
    requires
        p <= src.len(),
    ensures
        p <= identifier_end(src, p) <= src.len(),
    decreases src.len() - p,
{
    if p < src.len() && continues_identifier(src[p as int]) {
        lemma_identifier_end(src, p + 1);
    }
}

/// Every step from an index within the source stays within it.
pub proof fn lemma_next_step(src: Seq<char>, p: nat)
    requires
        p <= src.len(),
    ensures
        step_in_bounds(src, p, next_step(src, p)),
    decreases src.len() - p, 1nat,
{
    let q = skip_blanks(src, p);
    lemma_skip_blanks(src, p);
    if q < src.len() {
        let c = src[q as int];
        if c == '\n' {
        } else if c == '#' {
            lemma_comment_step(src, q);
        } else if c == '"' {
            lemma_string_step(src, q, q + 1, Seq::empty());
        } else if is_digit(c) {
            lemma_numeral_end(src, q + 1, false);
        } else if starts_identifier(c) {
            lemma_identifier_end(src, q + 1);
        } else {
        }
    }
}

proof fn lemma_comment_step(src: Seq<char>, q: nat)
    requires
        q < src.len(),
    ensures
        step_in_bounds(src, q, comment_step(src, q)),
    decreases src.len() - q, 0nat,
{
    if triple_hash_at(src, q as int) {
        lemma_block_comment_end(src, q + 3);
        match block_comment_end(src, q + 3) {
            Some(r) => {
                lemma_next_step(src, r);
            },
            None => {},
        }
    } else {
        lemma_line_end(src, q + 1);
        lemma_next_step(src, line_end(src, q + 1));
    }
}

// ──────────────────────────────────────────────
//  The token stream
// ──────────────────────────────────────────────

/// What lexing from an index yields: the tokens up to and including the
/// end of input, each with its start index, and where lexing ended; or the
/// first error.
pub enum LexOutcome {
    Tokens { tokens: Seq<(KindView, nat)>, end: nat },
    Failure { message: Seq<char>, at: nat, cursor: nat },
}

/// The tokens of `src` from index `p` on.
pub open spec fn lex_from(src: Seq<char>, p: nat) -> LexOutcome
    decreases src.len() - p,
{
    if p > src.len() {
        LexOutcome::Tokens { tokens: seq![(KindView::Plain(TokenKind::Eof), p)], end: p }
    } else {
        match next_step(src, p) {
            LexStep::Failure { message, at, cursor } => LexOutcome::Failure { message, at, cursor },
            LexStep::Token { kind, start, next } => {
                if kind == KindView::Plain(TokenKind::Eof) {
                    LexOutcome::Tokens { tokens: seq![(kind, start)], end: next }
                } else {
                    proof { lemma_next_step(src, p); }
                    match lex_from(src, next) {
                        LexOutcome::Tokens { tokens, end } =>
                            LexOutcome::Tokens { tokens: seq![(kind, start)] + tokens, end },
                        LexOutcome::Failure { message, at, cursor } => LexOutcome::Failure { message, at, cursor },
                    }
                }
            },
        }
    }
}

/// The outcome of lexing after `done` tokens were already produced.
pub open spec fn after(done: Seq<(KindView, nat)>, rest: LexOutcome) -> LexOutcome {
    match rest {
        LexOutcome::Tokens { tokens, end } => LexOutcome::Tokens { tokens: done + tokens, end },
        LexOutcome::Failure { message, at, cursor } => LexOutcome::Failure { message, at, cursor },
    }
}

/// Whether `toks` are the tokens `ts`, each located at its start index.
pub open spec fn tokens_match(toks: Seq<Token>, ts: Seq<(KindView, nat)>, src: Seq<char>) -> bool {
    &&& toks.len() == ts.len()
    &&& forall|i: int| 0 <= i < toks.len() ==> {
        &&& (#[trigger] toks[i]).kind@ == ts[i].0
        &&& located_at(toks[i].location, src, ts[i].1)
    }
}

/// Whether `e` is the lexer error with `message` located at index `at`.
pub open spec fn lexer_error_at(e: KelpyError, message: Seq<char>, src: Seq<char>, at: nat) -> bool {
    match e {
        KelpyError::LexerError { message: m, location } => m@ == message && located_at(location, src, at),
        _ => false,
    }
}

/// Whether `res` is what the step `step` yields.
pub open spec fn step_matches(res: KelpyResult<Token>, step: LexStep, src: Seq<char>) -> bool {
    match step {
        LexStep::Token { kind, start, .. } =>
            res matches Ok(t) && t.kind@ == kind && located_at(t.location, src, start),
        LexStep::Failure { message, at, .. } =>
            res matches Err(e) && lexer_error_at(e, message, src, at),
    }
}

/// Blanks are exactly the space, the tab and the carriage return: lexing
/// skips a run of them before a token, and a blank at an index changes
/// nothing that lexing from that index yields (no token and no error comes
/// of it).
pub proof fn lemma_blanks(src: Seq<char>, p: nat)
    requires
        p <= src.len(),
    ensures
        forall|j: int| p <= j < skip_blanks(src, p) ==> src[j] == ' ' || src[j] == '\t' || src[j] == '\r',
        skip_blanks(src, p) < src.len() ==> {
            let c = src[skip_blanks(src, p) as int];
            c != ' ' && c != '\t' && c != '\r'
        },
        p < src.len() && (src[p as int] == ' ' || src[p as int] == '\t' || src[p as int] == '\r') ==> {
            &&& next_step(src, p) == next_step(src, p + 1)
            &&& lex_from(src, p) == lex_from(src, p + 1)
        },
    decreases src.len() - p,
{
    lemma_skip_blanks(src, p);
    if p < src.len() && is_blank(src[p as int]) {
        lemma_blanks(src, p + 1);
        assert(skip_blanks(src, p) == skip_blanks(src, p + 1));
        assert(next_step(src, p) == next_step(src, p + 1));
    }
}

/// Lexing yields a well-formed token stream: when it succeeds, the last
/// token, and only the last, is the end of input (`Eof`), which starts at
/// the end of the source; the tokens start at strictly increasing indices,
/// none before `p`.
pub proof fn lemma_lex_stream(src: Seq<char>, p: nat)
    requires
        p <= src.len(),
    ensures
        lex_from(src, p) matches LexOutcome::Tokens { tokens, .. } ==> {
            &&& tokens.len() > 0
            &&& tokens.last().0 == KindView::Plain(TokenKind::Eof)
            &&& tokens.last().1 == src.len()
            &&& forall|i: int| 0 <= i < tokens.len() - 1 ==> (#[trigger] tokens[i]).0 != KindView::Plain(TokenKind::Eof)
            &&& forall|i: int, j: int| 0 <= i < j < tokens.len() ==> (#[trigger] tokens[i]).1 < (#[trigger] tokens[j]).1
            &&& forall|i: int| 0 <= i < tokens.len() ==> p <= (#[trigger] tokens[i]).1 <= src.len()
        },
    decreases src.len() - p,
{
    lemma_next_step(src, p);
    match next_step(src, p) {
        LexStep::Token { kind, start, next } => {
            if kind != KindView::Plain(TokenKind::Eof) {
                lemma_lex_stream(src, next);
                match lex_from(src, next) {
                    LexOutcome::Tokens { tokens: rest, end } => {
                        let tokens = seq![(kind, start)] + rest;
                        assert(lex_from(src, p) == LexOutcome::Tokens { tokens, end });
                        assert(tokens.last() == rest.last());
                        assert forall|i: int| 0 <= i < tokens.len() - 1 implies (#[trigger] tokens[i]).0 != KindView::Plain(TokenKind::Eof) by {
                            if i > 0 {
                                assert(tokens[i] == rest[i - 1]);
                            }
                        }
                        assert forall|i: int, j: int| 0 <= i < j < tokens.len() implies (#[trigger] tokens[i]).1 < (#[trigger] tokens[j]).1 by {
                            assert(tokens[j] == rest[j - 1]);
                            if i > 0 {
                                assert(tokens[i] == rest[i - 1]);
                            } else {
                                assert(next <= rest[j - 1].1);
                            }
                        }
                        assert forall|i: int| 0 <= i < tokens.len() implies p <= (#[trigger] tokens[i]).1 <= src.len() by {
                            if i > 0 {
                                assert(tokens[i] == rest[i - 1]);
                            }
                        }
                    },
                    LexOutcome::Failure { .. } => {},
                }
            }
        },
        LexStep::Failure { .. } => {},
    }
}

// ──────────────────────────────────────────────
//  Lexer
// ──────────────────────────────────────────────

/// The lexer: the source characters and a cursor with its line and column.
pub struct Lexer {
    source: Vec<char>,
    pos: usize,
    line: usize,
    column: usize,
}

impl Lexer {
    /// The source characters.
    pub closed spec fn chars(&self) -> Seq<char> {
        self.source@
    }

    /// The index of the next character to read.
    pub closed spec fn cursor(&self) -> nat {
        self.pos as nat
    }

    /// The line and column of the cursor, as the lexer tracks them.
    pub closed spec fn location(&self) -> SourceLocation {
        SourceLocation { line: self.line, column: self.column }
    }

    /// A well-formed lexer's line and column are those of its cursor's
    /// index: one more than the newlines before it, and one more than the
    /// characters since the last of them.
    pub proof fn lemma_location(&self)
        requires
            self.wf(),
        ensures
            located_at(self.location(), self.chars(), self.cursor()),
    {
    }

    /// The cursor is within the source, and the line and column are those
    /// of the cursor.
    pub closed spec fn wf(&self) -> bool {
        &&& self.pos <= self.source@.len()
        &&& self.source@.len() < usize::MAX
        &&& self.line == line_at(self.source@, self.pos as nat)
        &&& self.column == col_at(self.source@, self.pos as nat)
    }

    /// A lexer at the start of `source`.
    pub fn new(source: &str) -> (lexer: Lexer)
        requires
            source@.len() < usize::MAX,
        ensures
            lexer.wf(),
            lexer.chars() == source@,
            lexer.cursor() == 0,
            lexer.location() == (SourceLocation { line: 1, column: 1 }),
    {
        let mut chars: Vec<char> = Vec::new();
        let mut it = source.chars();
        broadcast use vstd::string::group_string_axioms;
        assert(it.remaining() == source@);
        loop
            invariant
                chars@ + it.remaining() == source@,
                it.obeys_prophetic_iter_laws(),
                it.decrease() is Some,
            ensures
                chars@ == source@,
            decreases it.decrease()->0,
        {
            let ghost before = it.remaining();
            match it.next() {
                Some(c) => {
                    chars.push(c);
                    assert(chars@ + it.remaining() =~= source@);
                },
                None => {
                    assert(chars@ =~= source@);
                    break;
                },
            }
        }
        assert(chars@ =~= source@);
        Lexer { source: chars, pos: 0, line: 1, column: 1 }
    }

    /// The character at the cursor, if any.
    fn peek(&self) -> (r: Option<char>)
        requires
            self.wf(),
        ensures
            r == char_at(self.source@, self.pos as int),
    {
        if self.pos < self.source.len() { Some(self.source[self.pos]) } else { None }
    }

    /// The character after the one at the cursor, if any.
    fn peek_next(&self) -> (r: Option<char>)
        requires
            self.wf(),
        ensures
            r == char_at(self.source@, self.pos + 1),
    {
        self.peek_at(1)
    }

    /// The character `offset` places after the cursor, if any.
    fn peek_at(&self, offset: usize) -> (r: Option<char>)
        requires
            self.wf(),
        ensures
            r == char_at(self.source@, self.pos + offset),
    {
        if offset < self.source.len() - self.pos {
            Some(self.source[self.pos + offset])
        } else {
            None
        }
    }

    /// Whether the character `offset` places after the cursor is `c`.
    fn peek_is(&self, offset: usize, c: char) -> (r: bool)
        requires
            self.wf(),
        ensures
            r == (char_at(self.source@, self.pos + offset) == Some(c)),
    {
        match self.peek_at(offset) {
            Some(d) => d == c,
            None => false,
        }
    }

    /// Consumes the character at the cursor, if any, keeping the line and
    /// column in step.
    fn advance(&mut self) -> (r: Option<char>)
        requires
            old(self).wf(),
        ensures
            final(self).wf(),
            final(self).source@ == old(self).source@,
            r == char_at(old(self).source@, old(self).pos as int),
            final(self).pos == if old(self).pos < old(self).source@.len() { old(self).pos + 1 } else { old(self).pos as int },
            r == Some('\n') ==> final(self).location() == (SourceLocation { line: (old(self).line + 1) as usize, column: 1 }),
            r is Some && r != Some('\n') ==> final(self).location() == (SourceLocation { line: old(self).line, column: (old(self).column + 1) as usize }),
            r is None ==> *final(self) == *old(self),
    {
        let ch = self.peek();
        if let Some(c) = ch {
            proof { lemma_line_col_bounds(self.source@, self.pos as nat); }
            self.pos = self.pos + 1;
            if c == '\n' {
                self.line = self.line + 1;
                self.column = 1;
            } else {
                self.column = self.column + 1;
            }
        }
        ch
    }

    /// Skips blanks (spaces, tabs and carriage returns).
    fn skip_whitespace(&mut self)
        requires
            old(self).wf(),
        ensures
            final(self).wf(),
            final(self).source@ == old(self).source@,
            final(self).pos == skip_blanks(old(self).source@, old(self).pos as nat),
            final(self).location() == (SourceLocation { line: old(self).line, column: (old(self).column + (final(self).pos - old(self).pos)) as usize }),
    {
        loop
            invariant
                self.wf(),
                self.source@ == old(self).source@,
                skip_blanks(self.source@, self.pos as nat) == skip_blanks(old(self).source@, old(self).pos as nat),
                old(self).pos <= self.pos,
                self.line == old(self).line,
                self.column == old(self).column + (self.pos - old(self).pos),
            ensures
                self.line == old(self).line,
                self.column == old(self).column + (self.pos - old(self).pos),
                self.wf(),
                self.source@ == old(self).source@,
                self.pos == skip_blanks(old(self).source@, old(self).pos as nat),
            decreases self.source@.len() - self.pos,
        {
            match self.peek() {
                Some(ch) => {
                    if ch == ' ' || ch == '\t' || ch == '\r' {
                        self.advance();
                    } else {
                        break;
                    }
                },
                None => {
                    break;
                },
            }
        }
    }

    /// A token of kind `kind` starting at the given line and column.
    fn make_token(&self, kind: TokenKind, start_line: usize, start_col: usize) -> (t: Token)
        ensures
            t.kind == kind,
            t.location == (SourceLocation { line: start_line, column: start_col }),
    {
        Token::new(kind, start_line, start_col)
    }

    /// A lexer error with `message` at the cursor.
    fn error(&self, message: String) -> (e: KelpyError)
        ensures
            e == (KelpyError::LexerError {
                message,
                location: SourceLocation { line: self.line, column: self.column },
            }),
    {
        KelpyError::LexerError {
            message,
            location: SourceLocation { line: self.line, column: self.column },
        }
    }

    /// Tokenizes the rest of the source, up to and including the end of
    /// input; stops at the first error.
    pub fn tokenize(&mut self) -> (res: KelpyResult<Vec<Token>>)
        requires
            old(self).wf(),
        ensures
            final(self).wf(),
            final(self).chars() == old(self).chars(),
            match lex_from(old(self).chars(), old(self).cursor()) {
                LexOutcome::Tokens { tokens, end } =>
                    res matches Ok(toks) && tokens_match(toks@, tokens, old(self).chars())
                        && final(self).cursor() == end,
                LexOutcome::Failure { message, at, cursor } =>
                    res matches Err(e) && lexer_error_at(e, message, old(self).chars(), at)
                        && final(self).cursor() == cursor,
            },
    {
        let ghost src = self.source@;
        let ghost p0 = self.pos as nat;
        let mut tokens: Vec<Token> = Vec::new();
        let ghost mut done: Seq<(KindView, nat)> = Seq::empty();
        loop
            invariant
                self.wf(),
                self.source@ == src,
                src == old(self).source@,
                p0 == old(self).pos,
                tokens_match(tokens@, done, src),
                lex_from(src, p0) == after(done, lex_from(src, self.pos as nat)),
            decreases src.len() - self.pos,
        {
            let ghost p = self.pos as nat;
            let ghost step = next_step(src, p);
            proof { lemma_next_step(src, p); }
            let token = match self.next_token() {
                Ok(t) => t,
                Err(e) => {
                    return Err(e);
                },
            };
            let is_eof = matches!(token.kind, TokenKind::Eof);
            let ghost start = step->Token_start;
            proof {
                let x = (token.kind@, start);
                let ghost old_done = done;
                done = done.push(x);
                assert(is_eof == (token.kind@ == KindView::Plain(TokenKind::Eof)));
                if is_eof {
                    assert(old_done + seq![x] =~= done);
                } else {
                    match lex_from(src, step->Token_next) {
                        LexOutcome::Tokens { tokens: ts, end } => {
                            assert(old_done + (seq![x] + ts) =~= done + ts);
                        },
                        _ => {},
                    }
                }
            }
            tokens.push(token);
            if is_eof {
                return Ok(tokens);
            }
        }
    }

    // ── Main tokenizer ──

    /// Lexes the next token, skipping blanks and comments before it.
    fn next_token(&mut self) -> (res: KelpyResult<Token>)
        requires
            old(self).wf(),
        ensures
            final(self).wf(),
            final(self).source@ == old(self).source@,
            step_matches(res, next_step(old(self).source@, old(self).pos as nat), old(self).source@),
            final(self).pos == step_end(next_step(old(self).source@, old(self).pos as nat)),
        decreases old(self).source@.len() - old(self).pos, 1nat,
    {
        self.skip_whitespace();
        proof { lemma_skip_blanks(self.source@, old(self).pos as nat); }
        let start_line = self.line;
        let start_col = self.column;
        let ch = match self.peek() {
            Some(c) => c,
            None => {
                return Ok(self.make_token(TokenKind::Eof, start_line, start_col));
            },
        };
        if ch == '\n' {
            self.advance();
            return Ok(self.make_token(TokenKind::Newline, start_line, start_col));
        }
        if ch == '#' {
            return self.lex_comment(start_line, start_col);
        }
        if ch == '"' {
            return self.lex_string(start_line, start_col);
        }
        if '0' <= ch && ch <= '9' {
            return self.lex_number(start_line, start_col);
        }
        if is_alphabetic(ch) || ch == '_' {
            return self.lex_identifier(start_line, start_col);
        }
        self.lex_operator_or_punctuation(start_line, start_col)
    }

    // ── Comments ──

    /// Skips the comment at the cursor, then lexes the next token.
    fn lex_comment(&mut self, start_line: usize, start_col: usize) -> (res: KelpyResult<Token>)
        requires
            old(self).wf(),
            old(self).pos < old(self).source@.len(),
            old(self).source@[old(self).pos as int] == '#',
            start_line == line_at(old(self).source@, old(self).pos as nat),
            start_col == col_at(old(self).source@, old(self).pos as nat),
        ensures
            final(self).wf(),
            final(self).source@ == old(self).source@,
            step_matches(res, comment_step(old(self).source@, old(self).pos as nat), old(self).source@),
            final(self).pos == step_end(comment_step(old(self).source@, old(self).pos as nat)),
        decreases old(self).source@.len() - old(self).pos, 0nat,
    {
        let ghost src = self.source@;
        let ghost q = self.pos as nat;
        if self.peek_is(0, '#') && self.peek_is(1, '#') && self.peek_is(2, '#') {
            self.advance();
            self.advance();
            self.advance();
            loop
                invariant_except_break
                    block_comment_end(src, q + 3) == block_comment_end(src, self.pos as nat),
                invariant
                    self.wf(),
                    self.source@ == src,
                    q + 3 <= self.pos,
                    start_line == line_at(src, q),
                    start_col == col_at(src, q),
                    triple_hash_at(src, q as int),
                    src == old(self).source@,
                    q == old(self).pos,
                ensures
                    self.wf(),
                    self.source@ == src,
                    block_comment_end(src, q + 3) == Some(self.pos as nat),
                decreases src.len() - self.pos,
            {
                match self.peek() {
                    None => {
                        return Err(KelpyError::LexerError {
                            message: String::from_str("Unterminated multi-line comment"),
                            location: SourceLocation { line: start_line, column: start_col },
                        });
                    },
                    Some(c) => {
                        if c == '#' && self.peek_is(1, '#') && self.peek_is(2, '#') {
                            self.advance();
                            self.advance();
                            self.advance();
                            break;
                        } else {
                            self.advance();
                        }
                    },
                }
            }
            proof { lemma_block_comment_end(src, q + 3); }
        } else {
            loop
                invariant
                    self.wf(),
                    self.source@ == src,
                    q <= self.pos,
                    line_end(src, q + 1) == line_end(src, self.pos as nat),
                    src == old(self).source@,
                    q == old(self).pos,
                    src[q as int] == '#',
                    q < src.len(),
                ensures
                    self.wf(),
                    self.source@ == src,
                    q < self.pos,
                    line_end(src, q + 1) == self.pos,
                decreases src.len() - self.pos,
            {
                match self.peek() {
                    Some(c) => {
                        if c == '\n' {
                            break;
                        }
                        self.advance();
                    },
                    None => {
                        break;
                    },
                }
            }
        }
        self.next_token()
    }

    // ── Strings ──

    /// Lexes the string literal that opens at the cursor.
    fn lex_string(&mut self, start_line: usize, start_col: usize) -> (res: KelpyResult<Token>)
        requires
            old(self).wf(),
            old(self).pos < old(self).source@.len(),
            old(self).source@[old(self).pos as int] == '"',
            start_line == line_at(old(self).source@, old(self).pos as nat),
            start_col == col_at(old(self).source@, old(self).pos as nat),
        ensures
            final(self).wf(),
            final(self).source@ == old(self).source@,
            step_matches(res, string_step(old(self).source@, old(self).pos as nat, (old(self).pos + 1) as nat, Seq::empty()), old(self).source@),
            final(self).pos == step_end(string_step(old(self).source@, old(self).pos as nat, (old(self).pos + 1) as nat, Seq::empty())),
    {
        let ghost src = self.source@;
        let ghost q = self.pos as nat;
        self.advance();
        let mut value = String::new();
        loop
            invariant
                self.wf(),
                self.source@ == src,
                q < self.pos,
                string_step(src, q, q + 1, Seq::empty()) == string_step(src, q, self.pos as nat, value@),
                start_line == line_at(src, q),
                start_col == col_at(src, q),
                src == old(self).source@,
                q == old(self).pos,
            decreases src.len() - self.pos,
        {
            match self.peek() {
                None => {
                    return Err(KelpyError::LexerError {
                        message: String::from_str("Unterminated string literal"),
                        location: SourceLocation { line: start_line, column: start_col },
                    });
                },
                Some(c) => {
                    if c == '\n' {
                        return Err(KelpyError::LexerError {
                            message: String::from_str("Unterminated string literal"),
                            location: SourceLocation { line: start_line, column: start_col },
                        });
                    } else if c == '"' {
                        self.advance();
                        return Ok(self.make_token(TokenKind::StringLiteral(value), start_line, start_col));
                    } else if c == '\\' {
                        self.advance();
                        match self.peek() {
                            Some(e) => {
                                if e == 'n' {
                                    push_char(&mut value, '\n');
                                } else if e == 't' {
                                    push_char(&mut value, '\t');
                                } else if e == '\\' {
                                    push_char(&mut value, '\\');
                                } else if e == '"' {
                                    push_char(&mut value, '"');
                                } else {
                                    push_char(&mut value, '\\');
                                    push_char(&mut value, e);
                                }
                                self.advance();
                            },
                            None => {
                                return Err(KelpyError::LexerError {
                                    message: String::from_str("Unterminated escape sequence"),
                                    location: SourceLocation { line: self.line, column: self.column },
                                });
                            },
                        }
                    } else {
                        push_char(&mut value, c);
                        self.advance();
                    }
                },
            }
        }
    }

    // ── Numbers ──

    /// Lexes the number literal that starts at the cursor.
    fn lex_number(&mut self, start_line: usize, start_col: usize) -> (res: KelpyResult<Token>)
        requires
            old(self).wf(),
            old(self).pos < old(self).source@.len(),
            is_digit(old(self).source@[old(self).pos as int]),
            start_line == line_at(old(self).source@, old(self).pos as nat),
            start_col == col_at(old(self).source@, old(self).pos as nat),
        ensures
            final(self).wf(),
            final(self).source@ == old(self).source@,
            res matches Ok(t) && t.kind@ == KindView::NumberLiteral(
                old(self).source@.subrange(old(self).pos as int, numeral_end(old(self).source@, old(self).pos as nat, false) as int))
                && located_at(t.location, old(self).source@, old(self).pos as nat),
            final(self).pos == numeral_end(old(self).source@, old(self).pos as nat, false),
    {
        let ghost src = self.source@;
        let ghost q = self.pos as nat;
        let mut num_str = String::new();
        let mut has_dot = false;
        loop
            invariant
                self.wf(),
                self.source@ == src,
                q <= self.pos,
                num_str@ == src.subrange(q as int, self.pos as int),
                numeral_end(src, q, false) == numeral_end(src, self.pos as nat, has_dot),
            ensures
                self.wf(),
                self.source@ == src,
                num_str@ == src.subrange(q as int, self.pos as int),
                numeral_end(src, q, false) == self.pos,
            decreases src.len() - self.pos,
        {
            match self.peek() {
                Some(ch) => {
                    if '0' <= ch && ch <= '9' {
                        push_char(&mut num_str, ch);
                        self.advance();
                        assert(num_str@ =~= src.subrange(q as int, self.pos as int));
                    } else if ch == '.' && !has_dot {
                        match self.peek_next() {
                            Some(next) => {
                                if '0' <= next && next <= '9' {
                                    has_dot = true;
                                    push_char(&mut num_str, '.');
                                    self.advance();
                                    assert(num_str@ =~= src.subrange(q as int, self.pos as int));
                                } else {
                                    break;
                                }
                            },
                            None => {
                                break;
                            },
                        }
                    } else {
                        break;
                    }
                },
                None => {
                    break;
                },
            }
        }
        Ok(self.make_token(TokenKind::NumberLiteral(num_str), start_line, start_col))
    }

    // ── Identifiers and keywords ──

    /// Lexes the word that starts at the cursor: a keyword or an identifier.
    fn lex_identifier(&mut self, start_line: usize, start_col: usize) -> (res: KelpyResult<Token>)
        requires
            old(self).wf(),
            old(self).pos < old(self).source@.len(),
            starts_identifier(old(self).source@[old(self).pos as int]),
            start_line == line_at(old(self).source@, old(self).pos as nat),
            start_col == col_at(old(self).source@, old(self).pos as nat),
        ensures
            final(self).wf(),
            final(self).source@ == old(self).source@,
            res matches Ok(t) && t.kind@ == word_kind(
                old(self).source@.subrange(old(self).pos as int, identifier_end(old(self).source@, (old(self).pos + 1) as nat) as int))
                && located_at(t.location, old(self).source@, old(self).pos as nat),
            final(self).pos == identifier_end(old(self).source@, (old(self).pos + 1) as nat),
    {
        let ghost src = self.source@;
        let ghost q = self.pos as nat;
        let mut ident = String::new();
        loop
            invariant
                self.wf(),
                self.source@ == src,
                q <= self.pos,
                q < src.len(),
                starts_identifier(src[q as int]),
                ident@ == src.subrange(q as int, self.pos as int),
                self.pos == q || identifier_end(src, q + 1) == identifier_end(src, self.pos as nat),
            ensures
                self.wf(),
                self.source@ == src,
                ident@ == src.subrange(q as int, self.pos as int),
                identifier_end(src, q + 1) == self.pos,
            decreases src.len() - self.pos,
        {
            match self.peek() {
                Some(ch) => {
                    if is_alphanumeric(ch) || ch == '_' {
                        push_char(&mut ident, ch);
                        self.advance();
                        assert(ident@ =~= src.subrange(q as int, self.pos as int));
                    } else {
                        break;
                    }
                },
                None => {
                    break;
                },
            }
        }
        let kind = keyword_kind(ident);
        Ok(self.make_token(kind, start_line, start_col))
    }

    // ── Operators and punctuation ──

    /// Lexes the operator or punctuation at the cursor.
    fn lex_operator_or_punctuation(&mut self, start_line: usize, start_col: usize) -> (res: KelpyResult<Token>)
        requires
            old(self).wf(),
            old(self).pos < old(self).source@.len(),
            start_line == line_at(old(self).source@, old(self).pos as nat),
            start_col == col_at(old(self).source@, old(self).pos as nat),
        ensures
            final(self).wf(),
            final(self).source@ == old(self).source@,
            step_matches(res, operator_step(old(self).source@, old(self).pos as nat), old(self).source@),
            final(self).pos == step_end(operator_step(old(self).source@, old(self).pos as nat)),
    {
        let ch = self.advance().unwrap();
        let kind = match ch {
            '+' => {
                if self.peek_is(0, '=') {
                    self.advance();
                    TokenKind::PlusEquals
                } else {
                    TokenKind::Plus
                }
            },
            '-' => {
                if self.peek_is(0, '=') {
                    self.advance();
                    TokenKind::MinusEquals
                } else {
                    TokenKind::Minus
                }
            },
            '*' => {
                if self.peek_is(0, '=') {
                    self.advance();
                    TokenKind::StarEquals
                } else {
                    TokenKind::Star
                }
            },
            '/' => {
                if self.peek_is(0, '=') {
                    self.advance();
                    TokenKind::SlashEquals
                } else {
                    TokenKind::Slash
                }
            },
            '%' => TokenKind::Percent,
            '(' => TokenKind::LParen,
            ')' => TokenKind::RParen,
            '{' => TokenKind::LBrace,
            '}' => TokenKind::RBrace,
            '[' => TokenKind::LBracket,
            ']' => TokenKind::RBracket,
            ',' => TokenKind::Comma,
            ':' => TokenKind::Colon,
            '.' => TokenKind::Dot,
            '=' => {
                if self.peek_is(0, '=') {
                    self.advance();
                    TokenKind::EqualEqual
                } else {
                    TokenKind::Equals
                }
            },
            '!' => {
                if self.peek_is(0, '=') {
                    self.advance();
                    TokenKind::NotEqual
                } else {
                    return Err(self.error(String::from_str("Unexpected character: '!'  (did you mean '!='?)")));
                }
            },
            '<' => {
                if self.peek_is(0, '=') {
                    self.advance();
                    TokenKind::LessEqual
                } else {
                    TokenKind::LessThan
                }
            },
            '>' => {
                if self.peek_is(0, '=') {
                    self.advance();
                    TokenKind::GreaterEqual
                } else {
                    TokenKind::GreaterThan
                }
            },
            _ => {
                let mut message = String::from_str("Unexpected character: '");
                push_char(&mut message, ch);
                message.append("'");
                assert(message@ =~= "Unexpected character: '"@ + seq![ch] + "'"@);
                return Err(self.error(message));
            },
        };
        Ok(self.make_token(kind, start_line, start_col))
    }
}

/// The token kind of a word: its keyword, or an identifier.
fn keyword_kind(ident: String) -> (k: TokenKind)
    ensures
        k@ == word_kind(ident@),
{
    let w = ident.as_str();
    if text_is(w, "def") { TokenKind::Def }
    else if text_is(w, "if") { TokenKind::If }
    else if text_is(w, "elif") { TokenKind::Elif }
    else if text_is(w, "else") { TokenKind::Else }
    else if text_is(w, "while") { TokenKind::While }
    else if text_is(w, "for") { TokenKind::For }
    else if text_is(w, "in") { TokenKind::In }
    else if text_is(w, "return") { TokenKind::Return }
    else if text_is(w, "import") { TokenKind::Import }
    else if text_is(w, "true") { TokenKind::True }
    else if text_is(w, "false") { TokenKind::False }
    else if text_is(w, "and") { TokenKind::And }
    else if text_is(w, "or") { TokenKind::Or }
    else if text_is(w, "not") { TokenKind::Not }
    else if text_is(w, "print") { TokenKind::Print }
    else if text_is(w, "break") { TokenKind::Break }
    else if text_is(w, "continue") { TokenKind::Continue }
    else if text_is(w, "try") { TokenKind::Try }
    else if text_is(w, "catch") { TokenKind::Catch }
    else if text_is(w, "throw") { TokenKind::Throw }
    else if text_is(w, "class") { TokenKind::Class }
    else if text_is(w, "null") { TokenKind::Null }
    else if text_is(w, "new") { TokenKind::New }
    else if text_is(w, "self") { TokenKind::Self_ }
    else { TokenKind::Identifier(ident) }
}

} // verus!
