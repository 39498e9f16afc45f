use kelpyshark::error::{KelpyError, SourceLocation};
use kelpyshark::lexer::{Lexer, TokenKind};

/// A token kind as these tests compare it: a number literal by its value.
#[derive(Debug, PartialEq)]
enum Kind {
    Number(f64),
    Other(TokenKind),
}

fn num(v: f64) -> Kind {
    Kind::Number(v)
}

fn k(kind: TokenKind) -> Kind {
    Kind::Other(kind)
}

fn ident(name: &str) -> Kind {
    Kind::Other(TokenKind::Identifier(name.to_string()))
}

fn string(s: &str) -> Kind {
    Kind::Other(TokenKind::StringLiteral(s.to_string()))
}

/// Tokenizes `source` and returns the token kinds, newlines left out.
fn token_kinds(source: &str) -> Vec<Kind> {
    let mut lexer = Lexer::new(source);
    let tokens = lexer.tokenize().expect("Lexer should not fail");
    tokens
        .into_iter()
        .filter(|t| t.kind != TokenKind::Newline)
        .map(|t| match t.kind {
            TokenKind::NumberLiteral(n) => Kind::Number(n.parse::<f64>().unwrap()),
            other => Kind::Other(other),
        })
        .collect()
}

#[test]
fn test_empty_source() {
    let kinds = token_kinds("");
    assert_eq!(kinds, vec![k(TokenKind::Eof)]);
}

#[test]
fn test_number_literals() {
    let kinds = token_kinds("42 3.14");
    assert_eq!(kinds, vec![num(42.0), num(3.14), k(TokenKind::Eof)]);
}

#[test]
fn test_string_literal() {
    let kinds = token_kinds(r#""hello world""#);
    assert_eq!(kinds, vec![string("hello world"), k(TokenKind::Eof)]);
}

#[test]
fn test_string_escape_sequences() {
    let kinds = token_kinds(r#""line1\nline2\ttab\\backslash""#);
    assert_eq!(kinds, vec![string("line1\nline2\ttab\\backslash"), k(TokenKind::Eof)]);
}

#[test]
fn test_keywords() {
    let kinds = token_kinds("def if else while for in return import true false and or not print");
    assert_eq!(
        kinds,
        vec![
            k(TokenKind::Def),
            k(TokenKind::If),
            k(TokenKind::Else),
            k(TokenKind::While),
            k(TokenKind::For),
            k(TokenKind::In),
            k(TokenKind::Return),
            k(TokenKind::Import),
            k(TokenKind::True),
            k(TokenKind::False),
            k(TokenKind::And),
            k(TokenKind::Or),
            k(TokenKind::Not),
            k(TokenKind::Print),
            k(TokenKind::Eof),
        ]
    );
}

#[test]
fn test_identifiers() {
    let kinds = token_kinds("foo bar_baz _private x1");
    assert_eq!(
        kinds,
        vec![ident("foo"), ident("bar_baz"), ident("_private"), ident("x1"), k(TokenKind::Eof)]
    );
}

#[test]
fn test_operators() {
    let kinds = token_kinds("+ - * / % = == != < <= > >=");
    assert_eq!(
        kinds,
        vec![
            k(TokenKind::Plus),
            k(TokenKind::Minus),
            k(TokenKind::Star),
            k(TokenKind::Slash),
            k(TokenKind::Percent),
            k(TokenKind::Equals),
            k(TokenKind::EqualEqual),
            k(TokenKind::NotEqual),
            k(TokenKind::LessThan),
            k(TokenKind::LessEqual),
            k(TokenKind::GreaterThan),
            k(TokenKind::GreaterEqual),
            k(TokenKind::Eof),
        ]
    );
}

#[test]
fn test_punctuation() {
    let kinds = token_kinds("( ) { } [ ] , : .");
    assert_eq!(
        kinds,
        vec![
            k(TokenKind::LParen),
            k(TokenKind::RParen),
            k(TokenKind::LBrace),
            k(TokenKind::RBrace),
            k(TokenKind::LBracket),
            k(TokenKind::RBracket),
            k(TokenKind::Comma),
            k(TokenKind::Colon),
            k(TokenKind::Dot),
            k(TokenKind::Eof),
        ]
    );
}

#[test]
fn test_single_line_comment() {
    let kinds = token_kinds("x = 5 # this is a comment\ny = 10");
    assert_eq!(
        kinds,
        vec![
            ident("x"),
            k(TokenKind::Equals),
            num(5.0),
            ident("y"),
            k(TokenKind::Equals),
            num(10.0),
            k(TokenKind::Eof),
        ]
    );
}

#[test]
fn test_multi_line_comment() {
    let kinds = token_kinds("x = 1\n### this is\na multi-line\ncomment ###\ny = 2");
    assert_eq!(
        kinds,
        vec![
            ident("x"),
            k(TokenKind::Equals),
            num(1.0),
            ident("y"),
            k(TokenKind::Equals),
            num(2.0),
            k(TokenKind::Eof),
        ]
    );
}

#[test]
fn test_assignment_expression() {
    let kinds = token_kinds(r#"name = "KelpyShark""#);
    assert_eq!(kinds, vec![ident("name"), k(TokenKind::Equals), string("KelpyShark"), k(TokenKind::Eof)]);
}

#[test]
fn test_function_definition() {
    let kinds = token_kinds("def greet(name) {\n    print name\n}");
    assert_eq!(
        kinds,
        vec![
            k(TokenKind::Def),
            ident("greet"),
            k(TokenKind::LParen),
            ident("name"),
            k(TokenKind::RParen),
            k(TokenKind::LBrace),
            k(TokenKind::Print),
            ident("name"),
            k(TokenKind::RBrace),
            k(TokenKind::Eof),
        ]
    );
}

#[test]
fn lexer_test_dict_literal() {
    let kinds = token_kinds(r#"{"key": "value", "num": 42}"#);
    assert_eq!(
        kinds,
        vec![
            k(TokenKind::LBrace),
            string("key"),
            k(TokenKind::Colon),
            string("value"),
            k(TokenKind::Comma),
            string("num"),
            k(TokenKind::Colon),
            num(42.0),
            k(TokenKind::RBrace),
            k(TokenKind::Eof),
        ]
    );
}

#[test]
fn lexer_test_list_literal() {
    let kinds = token_kinds(r#"["apple", "banana", "orange"]"#);
    assert_eq!(
        kinds,
        vec![
            k(TokenKind::LBracket),
            string("apple"),
            k(TokenKind::Comma),
            string("banana"),
            k(TokenKind::Comma),
            string("orange"),
            k(TokenKind::RBracket),
            k(TokenKind::Eof),
        ]
    );
}

#[test]
fn test_unterminated_string() {
    let mut lexer = Lexer::new(r#""hello"#);
    let result = lexer.tokenize();
    assert!(result.is_err());
    match result.unwrap_err() {
        KelpyError::LexerError { message, .. } => {
            assert!(message.contains("Unterminated string"));
        }
        other => panic!("Expected LexerError, got: {:?}", other),
    }
}

#[test]
fn test_unexpected_character() {
    let mut lexer = Lexer::new("x = @");
    let result = lexer.tokenize();
    assert!(result.is_err());
    match result.unwrap_err() {
        KelpyError::LexerError { message, .. } => {
            assert!(message.contains("Unexpected character"));
        }
        other => panic!("Expected LexerError, got: {:?}", other),
    }
}

#[test]
fn test_location_tracking() {
    let mut lexer = Lexer::new("x = 5\ny = 10");
    let tokens = lexer.tokenize().unwrap();
    // x is at line 1, col 1
    assert_eq!(tokens[0].location, SourceLocation { line: 1, column: 1 });
    // = is at line 1, col 3
    assert_eq!(tokens[1].location, SourceLocation { line: 1, column: 3 });
    // 5 is at line 1, col 5
    assert_eq!(tokens[2].location, SourceLocation { line: 1, column: 5 });
    // newline at line 1, col 6
    assert_eq!(tokens[3].location, SourceLocation { line: 1, column: 6 });
    // y is at line 2, col 1
    assert_eq!(tokens[4].location, SourceLocation { line: 2, column: 1 });
}

#[test]
fn test_full_example_program() {
    let source = r#"bob = {
    "age": "27 years",
    "name": "Bob Smith"
}

example_list = ["apple", "banana", "orange"]

def example_function(value, thing) {
    print "You have some items!"

    if value >= 25 {
        print "You lost."
    }
}
"#;
    let mut lexer = Lexer::new(source);
    let tokens = lexer.tokenize();
    assert!(tokens.is_ok(), "Full example should tokenize without error");
    let tokens = tokens.unwrap();
    // Should start with Identifier("bob")
    assert_eq!(tokens[0].kind, TokenKind::Identifier("bob".to_string()));
    // Should end with Eof
    assert_eq!(tokens.last().unwrap().kind, TokenKind::Eof);
}
