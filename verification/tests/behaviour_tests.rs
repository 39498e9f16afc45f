use kelpyshark::ast::{BinaryOperator, CompoundOp, Expr, Program, Statement, StringPart, UnaryOperator};
use kelpyshark::error::{KelpyError, KelpyResult, SourceLocation};
use kelpyshark::lexer::{Lexer, Token, TokenKind};
use kelpyshark::parser::Parser;
use kelpyshark::semantic::{Diagnostic, SemanticAnalyzer, Severity};

fn tokens(source: &str) -> KelpyResult<Vec<Token>> {
    Lexer::new(source).tokenize()
}

fn parse(source: &str) -> KelpyResult<Program> {
    let toks = tokens(source)?;
    Parser::new(toks).parse()
}

fn lexer_error(source: &str) -> (String, SourceLocation) {
    match tokens(source) {
        Err(KelpyError::LexerError { message, location }) => (message, location),
        other => panic!("Expected LexerError, got: {:?}", other),
    }
}

fn parse_error(source: &str) -> (String, SourceLocation) {
    match parse(source) {
        Err(KelpyError::ParseError { message, location }) => (message, location),
        other => panic!("Expected ParseError, got: {:?}", other),
    }
}

fn loc(line: usize, column: usize) -> SourceLocation {
    SourceLocation { line, column }
}

fn diagnostics(source: &str) -> Vec<Diagnostic> {
    let program = parse(source).unwrap();
    SemanticAnalyzer::new().analyze(&program)
}

fn assigned_value(program: &Program) -> &Expr {
    match &program.statements[0] {
        Statement::Assignment { value, .. } => value,
        other => panic!("Expected Assignment, got: {:?}", other),
    }
}

fn ident_name(e: &Expr) -> &str {
    match e {
        Expr::Identifier { name, .. } => name,
        other => panic!("Expected Identifier, got: {:?}", other),
    }
}

// ── Lexer ──

#[test]
fn stream_ends_with_one_eof_and_locations_increase() {
    let toks = tokens("x = 1\n  y = \"a\" # note\nprint x + y\n").unwrap();
    assert_eq!(toks.last().unwrap().kind, TokenKind::Eof);
    assert_eq!(toks.iter().filter(|t| t.kind == TokenKind::Eof).count(), 1);
    for pair in toks.windows(2) {
        let (a, b) = (&pair[0].location, &pair[1].location);
        assert!((a.line, a.column) < (b.line, b.column), "{:?} then {:?}", a, b);
    }
    assert_eq!(toks.last().unwrap().location, loc(4, 1));
}

#[test]
fn compound_operators_and_extra_keywords() {
    let kinds: Vec<TokenKind> = tokens("+= -= *= /= elif break continue try catch throw class null new self")
        .unwrap()
        .into_iter()
        .map(|t| t.kind)
        .collect();
    assert_eq!(
        kinds,
        vec![
            TokenKind::PlusEquals,
            TokenKind::MinusEquals,
            TokenKind::StarEquals,
            TokenKind::SlashEquals,
            TokenKind::Elif,
            TokenKind::Break,
            TokenKind::Continue,
            TokenKind::Try,
            TokenKind::Catch,
            TokenKind::Throw,
            TokenKind::Class,
            TokenKind::Null,
            TokenKind::New,
            TokenKind::Self_,
            TokenKind::Eof,
        ]
    );
}

#[test]
fn unicode_letters_make_identifiers() {
    let toks = tokens("été = naïve2").unwrap();
    assert_eq!(toks[0].kind, TokenKind::Identifier("été".to_string()));
    assert_eq!(toks[1].kind, TokenKind::Equals);
    assert_eq!(toks[2].kind, TokenKind::Identifier("naïve2".to_string()));
    assert_eq!(toks[2].location, loc(1, 7));
}

#[test]
fn number_literal_keeps_its_numeral() {
    let toks = tokens("3.140 5.method 007").unwrap();
    assert_eq!(toks[0].kind, TokenKind::NumberLiteral("3.140".to_string()));
    assert_eq!(toks[1].kind, TokenKind::NumberLiteral("5".to_string()));
    assert_eq!(toks[2].kind, TokenKind::Dot);
    assert_eq!(toks[3].kind, TokenKind::Identifier("method".to_string()));
    assert_eq!(toks[4].kind, TokenKind::NumberLiteral("007".to_string()));
}

#[test]
fn unknown_escape_keeps_the_backslash() {
    let toks = tokens(r#""a\qb\"c""#).unwrap();
    assert_eq!(toks[0].kind, TokenKind::StringLiteral("a\\qb\"c".to_string()));
}

#[test]
fn lexer_error_messages_and_locations() {
    assert_eq!(lexer_error("x = @"), ("Unexpected character: '@'".to_string(), loc(1, 6)));
    assert_eq!(
        lexer_error("a !b"),
        ("Unexpected character: '!'  (did you mean '!='?)".to_string(), loc(1, 4))
    );
    assert_eq!(lexer_error("x = \"abc"), ("Unterminated string literal".to_string(), loc(1, 5)));
    assert_eq!(lexer_error("x = \"abc\ny\""), ("Unterminated string literal".to_string(), loc(1, 5)));
    assert_eq!(lexer_error("\"abc\\"), ("Unterminated escape sequence".to_string(), loc(1, 6)));
    assert_eq!(lexer_error("x\n  ### open"), ("Unterminated multi-line comment".to_string(), loc(2, 3)));
}

#[test]
fn token_kind_display() {
    assert_eq!(TokenKind::NumberLiteral("42".to_string()).to_display_string(), "NUMBER(42)");
    assert_eq!(TokenKind::NumberLiteral("3.140".to_string()).to_display_string(), "NUMBER(3.14)");
    assert_eq!(TokenKind::NumberLiteral("007.50".to_string()).to_display_string(), "NUMBER(7.5)");
    assert_eq!(TokenKind::NumberLiteral("5.0".to_string()).to_display_string(), "NUMBER(5)");
    for numeral in ["0", "10", "3.14", "0.5", "120.25", "000"] {
        let value: f64 = numeral.parse().unwrap();
        assert_eq!(
            TokenKind::NumberLiteral(numeral.to_string()).to_display_string(),
            format!("NUMBER({})", value)
        );
    }
    assert_eq!(TokenKind::Identifier("foo".to_string()).to_display_string(), "IDENTIFIER(foo)");
    assert_eq!(TokenKind::StringLiteral("hi".to_string()).to_display_string(), "STRING(\"hi\")");
    assert_eq!(TokenKind::BooleanLiteral(true).to_display_string(), "BOOL(true)");
    assert_eq!(TokenKind::LBrace.to_display_string(), "{");
    assert_eq!(TokenKind::RBrace.to_display_string(), "}");
    assert_eq!(TokenKind::Self_.to_display_string(), "SELF");
    assert_eq!(TokenKind::GreaterEqual.to_display_string(), ">=");
    assert_eq!(TokenKind::Newline.to_display_string(), "NEWLINE");
    assert_eq!(TokenKind::Eof.to_display_string(), "EOF");
}

#[test]
fn token_new_sets_kind_and_location() {
    let t = Token::new(TokenKind::Comma, 3, 9);
    assert_eq!(t.kind, TokenKind::Comma);
    assert_eq!(t.location, loc(3, 9));
}

// ── Errors and operators ──

#[test]
fn error_display() {
    assert_eq!(loc(3, 14).to_display_string(), "line 3, column 14");
    let e = KelpyError::LexerError { message: "bad".to_string(), location: loc(1, 5) };
    assert_eq!(e.to_display_string(), "[Lexer Error at line 1, column 5] bad");
    let e = KelpyError::ParseError { message: "oops".to_string(), location: loc(10, 2) };
    assert_eq!(e.to_display_string(), "[Parse Error at line 10, column 2] oops");
    let e = KelpyError::SemanticError { message: "m".to_string(), location: Some(loc(2, 7)) };
    assert_eq!(e.to_display_string(), "[Semantic Error at line 2, column 7] m");
    let e = KelpyError::SemanticError { message: "m".to_string(), location: None };
    assert_eq!(e.to_display_string(), "[Semantic Error] m");
    let e = KelpyError::CodegenError { message: "c".to_string() };
    assert_eq!(e.to_display_string(), "[Codegen Error] c");
    let e = KelpyError::RuntimeError { message: "r".to_string() };
    assert_eq!(e.to_display_string(), "[Runtime Error] r");
}

#[test]
fn operator_display() {
    let ops = [
        (BinaryOperator::Add, "+"),
        (BinaryOperator::Subtract, "-"),
        (BinaryOperator::Multiply, "*"),
        (BinaryOperator::Divide, "/"),
        (BinaryOperator::Modulo, "%"),
        (BinaryOperator::Equal, "=="),
        (BinaryOperator::NotEqual, "!="),
        (BinaryOperator::LessThan, "<"),
        (BinaryOperator::LessEqual, "<="),
        (BinaryOperator::GreaterThan, ">"),
        (BinaryOperator::GreaterEqual, ">="),
        (BinaryOperator::And, "and"),
        (BinaryOperator::Or, "or"),
    ];
    for (op, text) in ops {
        assert_eq!(op.to_display_string(), text);
    }
    assert_eq!(UnaryOperator::Negate.to_display_string(), "-");
    assert_eq!(UnaryOperator::Not.to_display_string(), "not");
}

// ── Parser ──

#[test]
fn same_level_operators_group_to_the_left() {
    let program = parse("x = a - b - c").unwrap();
    match assigned_value(&program) {
        Expr::BinaryOp { left, op: BinaryOperator::Subtract, right, .. } => {
            assert_eq!(ident_name(right), "c");
            match left.as_ref() {
                Expr::BinaryOp { left, op: BinaryOperator::Subtract, right, .. } => {
                    assert_eq!(ident_name(left), "a");
                    assert_eq!(ident_name(right), "b");
                }
                other => panic!("Expected a - b, got: {:?}", other),
            }
        }
        other => panic!("Expected BinaryOp, got: {:?}", other),
    }
}

#[test]
fn tighter_operator_takes_the_middle_operand() {
    let program = parse("x = a or b and c").unwrap();
    match assigned_value(&program) {
        Expr::BinaryOp { left, op: BinaryOperator::Or, right, location } => {
            assert_eq!(ident_name(left), "a");
            assert_eq!(*location, loc(1, 7));
            match right.as_ref() {
                Expr::BinaryOp { op: BinaryOperator::And, .. } => {}
                other => panic!("Expected b and c, got: {:?}", other),
            }
        }
        other => panic!("Expected BinaryOp, got: {:?}", other),
    }
    let program = parse("x = a * b + c").unwrap();
    match assigned_value(&program) {
        Expr::BinaryOp { left, op: BinaryOperator::Add, .. } => match left.as_ref() {
            Expr::BinaryOp { op: BinaryOperator::Multiply, .. } => {}
            other => panic!("Expected a * b, got: {:?}", other),
        },
        other => panic!("Expected BinaryOp, got: {:?}", other),
    }
}

#[test]
fn unary_binds_tighter_than_binary() {
    let program = parse("x = -a + not b").unwrap();
    match assigned_value(&program) {
        Expr::BinaryOp { left, op: BinaryOperator::Add, right, .. } => {
            assert!(matches!(left.as_ref(), Expr::UnaryOp { op: UnaryOperator::Negate, .. }));
            assert!(matches!(right.as_ref(), Expr::UnaryOp { op: UnaryOperator::Not, .. }));
        }
        other => panic!("Expected BinaryOp, got: {:?}", other),
    }
}

#[test]
fn postfix_chain_call_index_member() {
    let program = parse("x = obj.items[0](1, 2)").unwrap();
    match assigned_value(&program) {
        Expr::FunctionCall { callee, args, .. } => {
            assert_eq!(args.len(), 2);
            match callee.as_ref() {
                Expr::Index { object, .. } => match object.as_ref() {
                    Expr::MemberAccess { member, .. } => assert_eq!(member, "items"),
                    other => panic!("Expected MemberAccess, got: {:?}", other),
                },
                other => panic!("Expected Index, got: {:?}", other),
            }
        }
        other => panic!("Expected FunctionCall, got: {:?}", other),
    }
}

#[test]
fn parser_error_messages() {
    assert_eq!(parse_error("def (x) {\n}"), ("Expected function name after 'def'".to_string(), loc(1, 5)));
    assert_eq!(parse_error("def f(1) {\n}"), ("Expected parameter name".to_string(), loc(1, 7)));
    assert_eq!(parse_error("for 1 in x {\n}"), ("Expected variable name after 'for'".to_string(), loc(1, 5)));
    assert_eq!(parse_error("for x of y {\n}"), ("Expected IN, found IDENTIFIER(of)".to_string(), loc(1, 7)));
    assert_eq!(parse_error("import 1"), ("Expected module name after 'import'".to_string(), loc(1, 8)));
    assert_eq!(parse_error("import a."), ("Expected module name after '.'".to_string(), loc(1, 10)));
    assert_eq!(parse_error("1 = 2"), ("Invalid assignment target".to_string(), loc(1, 1)));
    assert_eq!(parse_error("x = )"), ("Unexpected token in expression: )".to_string(), loc(1, 5)));
    assert_eq!(parse_error("x = = 5"), ("Unexpected token in expression: =".to_string(), loc(1, 5)));
    assert_eq!(parse_error("x = a."), ("Expected member name after '.'".to_string(), loc(1, 7)));
    assert_eq!(parse_error("if x {\n  print x"), ("Expected }, found EOF".to_string(), loc(2, 10)));
    assert_eq!(parse_error("x = (1 + 2"), ("Expected ), found EOF".to_string(), loc(1, 11)));
}

#[test]
fn else_if_nests_an_if() {
    let program = parse("if a {\n  print 1\n} else if b {\n  print 2\n} else {\n  print 3\n}").unwrap();
    assert_eq!(program.statements.len(), 1);
    match &program.statements[0] {
        Statement::If { else_body: Some(else_body), .. } => {
            assert_eq!(else_body.len(), 1);
            match &else_body[0] {
                Statement::If { then_body, else_body: Some(last), location, .. } => {
                    assert_eq!(then_body.len(), 1);
                    assert_eq!(last.len(), 1);
                    assert_eq!(*location, loc(3, 8));
                }
                other => panic!("Expected nested If, got: {:?}", other),
            }
        }
        other => panic!("Expected If, got: {:?}", other),
    }
}

#[test]
fn return_without_value() {
    let program = parse("def f() {\n  return\n}").unwrap();
    match &program.statements[0] {
        Statement::FunctionDef { body, .. } => {
            assert!(matches!(&body[0], Statement::Return { value: None, .. }));
        }
        other => panic!("Expected FunctionDef, got: {:?}", other),
    }
}

#[test]
fn interpolation_parts() {
    let program = parse(r#"x = "Hello {$name}!""#).unwrap();
    match assigned_value(&program) {
        Expr::StringInterpolation { parts, .. } => {
            assert_eq!(parts.len(), 3);
            assert!(matches!(&parts[0], StringPart::Literal(s) if s == "Hello "));
            assert!(matches!(&parts[1], StringPart::Expression(Expr::Identifier { name, .. }) if name == "name"));
            assert!(matches!(&parts[2], StringPart::Literal(s) if s == "!"));
        }
        other => panic!("Expected StringInterpolation, got: {:?}", other),
    }
    let program = parse(r#"x = "a {$b""#).unwrap();
    match assigned_value(&program) {
        Expr::StringInterpolation { parts, .. } => {
            assert_eq!(parts.len(), 2);
            assert!(matches!(&parts[0], StringPart::Literal(s) if s == "a "));
            assert!(matches!(&parts[1], StringPart::Expression(Expr::Identifier { name, .. }) if name == "b"));
        }
        other => panic!("Expected StringInterpolation, got: {:?}", other),
    }
}

#[test]
fn empty_and_blank_programs() {
    assert_eq!(parse("").unwrap().statements.len(), 0);
    assert_eq!(parse("\n\n  \n").unwrap().statements.len(), 0);
}

#[test]
fn statements_without_newlines_between_them() {
    let program = parse("x = 1 y = 2").unwrap();
    assert_eq!(program.statements.len(), 2);
}

#[test]
fn multiline_collections_and_arguments() {
    let program = parse("x = [\n  1,\n  2\n]\ny = {\n  \"a\": 1,\n  \"b\": 2\n}\nf(\n  1,\n  2\n)").unwrap();
    assert_eq!(program.statements.len(), 3);
    match &program.statements[2] {
        Statement::ExprStatement { expr: Expr::FunctionCall { args, .. }, .. } => assert_eq!(args.len(), 2),
        other => panic!("Expected call, got: {:?}", other),
    }
}

#[test]
fn parsed_locations() {
    let program = parse("\n  total = 1 + 2").unwrap();
    match &program.statements[0] {
        Statement::Assignment { location, value, .. } => {
            assert_eq!(*location, loc(2, 3));
            match value {
                Expr::BinaryOp { location, left, .. } => {
                    assert_eq!(*location, loc(2, 13));
                    match left.as_ref() {
                        Expr::NumberLiteral { value, location } => {
                            assert_eq!(value, "1");
                            assert_eq!(*location, loc(2, 11));
                        }
                        other => panic!("Expected NumberLiteral, got: {:?}", other),
                    }
                }
                other => panic!("Expected BinaryOp, got: {:?}", other),
            }
        }
        other => panic!("Expected Assignment, got: {:?}", other),
    }
}

// ── Semantic analysis ──

#[test]
fn block_names_do_not_leak() {
    let ds = diagnostics("if true {\n  y = 1\n}\nprint y");
    assert_eq!(ds.len(), 1);
    assert_eq!(ds[0].severity, Severity::Error);
    assert_eq!(ds[0].message, "Undefined variable 'y'");
    assert_eq!(ds[0].location, Some(loc(4, 7)));
}

#[test]
fn semantic_messages() {
    let ds = diagnostics("def add(a, b) {\n  return a + b\n}\nadd(1)");
    assert_eq!(ds.len(), 1);
    assert_eq!(ds[0].message, "Function 'add' expects 2 argument(s), but 1 were given");
    assert_eq!(ds[0].location, Some(loc(4, 4)));

    let ds = diagnostics("def foo() {\n  print 1\n}\ndef foo() {\n  print 2\n}");
    assert_eq!(ds.len(), 1);
    assert_eq!(ds[0].message, "Function 'foo' is already defined");
    assert_eq!(ds[0].location, Some(loc(4, 1)));

    let ds = diagnostics("return 42");
    assert_eq!(ds.len(), 1);
    assert_eq!(ds[0].message, "'return' used outside of a function");
    assert_eq!(ds[0].location, Some(loc(1, 1)));

    let ds = diagnostics("x = 42");
    assert_eq!(ds.len(), 1);
    assert_eq!(ds[0].severity, Severity::Warning);
    assert_eq!(ds[0].message, "Variable 'x' is defined but never used");
    assert_eq!(ds[0].location, None);
}

#[test]
fn errors_have_locations_and_warnings_do_not() {
    let ds = diagnostics("a = 1\nb = c\nreturn d\nf = 2");
    assert!(!ds.is_empty());
    for d in &ds {
        assert_eq!(d.severity == Severity::Error, d.location.is_some(), "{:?}", d);
    }
    let warnings: Vec<&str> = ds
        .iter()
        .filter(|d| d.severity == Severity::Warning)
        .map(|d| d.message.as_str())
        .collect();
    assert_eq!(
        warnings,
        vec![
            "Variable 'a' is defined but never used",
            "Variable 'b' is defined but never used",
            "Variable 'f' is defined but never used",
        ]
    );
}

#[test]
fn redefinition_resets_the_read_flag() {
    let ds = diagnostics("x = 1\nprint x\nx = 2");
    assert_eq!(ds.len(), 1);
    assert_eq!(ds[0].message, "Variable 'x' is defined but never used");
}

#[test]
fn parameters_and_loop_variables_count_as_read() {
    assert!(diagnostics("def f(a) {\n  return 1\n}").is_empty());
    let ds = diagnostics("for i in [1, 2] {\n  print 0\n}");
    assert!(ds.is_empty(), "{:?}", ds);
}

#[test]
fn nested_function_arity_is_checked() {
    let ds = diagnostics("def outer() {\n  def inner(a) {\n    return a\n  }\n  return inner(1, 2)\n}");
    assert_eq!(ds.len(), 1);
    assert_eq!(ds[0].message, "Function 'inner' expects 1 argument(s), but 2 were given");
}

#[test]
fn analyze_keeps_earlier_diagnostics() {
    let first = parse("print a").unwrap();
    let second = parse("print b").unwrap();
    let mut analyzer = SemanticAnalyzer::new();
    let d1 = analyzer.analyze(&first);
    let d2 = analyzer.analyze(&second);
    assert_eq!(d1.len(), 1);
    assert_eq!(d2.len(), 2);
    assert_eq!(d2[0].message, d1[0].message);
    assert_eq!(d2[1].message, "Undefined variable 'b'");
}

#[test]
fn check_returns_the_first_error() {
    let program = parse("x = 1\nprint a\nprint b").unwrap();
    match SemanticAnalyzer::check(&program) {
        Err(KelpyError::SemanticError { message, location }) => {
            assert_eq!(message, "Undefined variable 'a'");
            assert_eq!(location, Some(loc(2, 7)));
        }
        other => panic!("Expected SemanticError, got: {:?}", other),
    }
    // Warnings alone do not fail the check.
    let program = parse("x = 1").unwrap();
    assert!(SemanticAnalyzer::check(&program).is_ok());
}

#[test]
fn diagnostic_display() {
    let d = Diagnostic { severity: Severity::Error, message: "Undefined variable 'y'".to_string(), location: Some(loc(1, 7)) };
    assert_eq!(d.to_display_string(), "[Semantic Error at line 1, column 7] Undefined variable 'y'");
    let d = Diagnostic { severity: Severity::Warning, message: "unused".to_string(), location: None };
    assert_eq!(d.to_display_string(), "[Semantic Warning] unused");
}

#[test]
fn loop_bodies_do_not_leak_names() {
    let ds = diagnostics("while false {\n  w = 1\n}\nprint w");
    assert_eq!(ds.len(), 1);
    assert_eq!(ds[0].message, "Undefined variable 'w'");
    let ds = diagnostics("for i in [1] {\n  z = i\n}\nprint z\nprint i");
    assert_eq!(ds.len(), 2);
    assert_eq!(ds[0].message, "Undefined variable 'z'");
    assert_eq!(ds[1].message, "Undefined variable 'i'");
}

#[test]
fn clone_copies_the_tree() {
    let source = "def f(a, b) {\n  if a > b {\n    return [a, {\"k\": b}]\n  } else {\n    print \"{$a} and {$b}\"\n  }\n}\nx = f(1, 2).y[0]\nimport m.n\nwhile not x {\n  x = -x\n}";
    let program = parse(source).unwrap();
    let copy = program.clone();
    assert_eq!(format!("{:?}", copy), format!("{:?}", program));
    let stmt = program.statements[0].clone();
    assert_eq!(format!("{:?}", stmt), format!("{:?}", program.statements[0]));
}

#[test]
fn compound_assignment() {
    let program = parse("x += 1").unwrap();
    assert_eq!(program.statements.len(), 1);
    match &program.statements[0] {
        Statement::CompoundAssignment { name, op, value, location } => {
            assert_eq!(name, "x");
            assert_eq!(*op, CompoundOp::Add);
            assert_eq!(*location, loc(1, 1));
            match value {
                Expr::NumberLiteral { value, location } => {
                    assert_eq!(value.parse::<f64>().unwrap(), 1.0);
                    assert_eq!(*location, loc(1, 6));
                }
                other => panic!("Expected NumberLiteral, got: {:?}", other),
            }
        }
        other => panic!("Expected CompoundAssignment, got: {:?}", other),
    }
    let ops = [("-=", CompoundOp::Subtract), ("*=", CompoundOp::Multiply), ("/=", CompoundOp::Divide)];
    for (text, expected) in ops {
        let program = parse(&format!("total {} a + 2", text)).unwrap();
        match &program.statements[0] {
            Statement::CompoundAssignment { name, op, value, .. } => {
                assert_eq!(name, "total");
                assert_eq!(*op, expected);
                assert!(matches!(value, Expr::BinaryOp { op: BinaryOperator::Add, .. }));
            }
            other => panic!("Expected CompoundAssignment, got: {:?}", other),
        }
    }
    assert_eq!(parse_error("1 += 2"), ("Invalid assignment target".to_string(), loc(1, 1)));
}

#[test]
fn elif_is_an_else_branch_holding_an_if() {
    let program = parse("if a {\n  print a\n} elif b {\n  print b\n}").unwrap();
    assert_eq!(program.statements.len(), 1);
    match &program.statements[0] {
        Statement::If { condition, then_body, else_body: Some(else_body), .. } => {
            assert_eq!(ident_name(condition), "a");
            assert_eq!(then_body.len(), 1);
            assert_eq!(else_body.len(), 1);
            match &else_body[0] {
                Statement::If { condition, then_body, else_body: None, location } => {
                    assert_eq!(ident_name(condition), "b");
                    assert!(matches!(&then_body[0], Statement::Print { .. }));
                    assert_eq!(*location, loc(3, 3));
                }
                other => panic!("Expected nested If, got: {:?}", other),
            }
        }
        other => panic!("Expected If, got: {:?}", other),
    }
    let program = parse("if a {\n} elif b {\n} elif c {\n} else {\n  print 1\n}").unwrap();
    match &program.statements[0] {
        Statement::If { else_body: Some(e1), .. } => match &e1[0] {
            Statement::If { else_body: Some(e2), .. } => match &e2[0] {
                Statement::If { else_body: Some(last), .. } => assert_eq!(last.len(), 1),
                other => panic!("Expected third If, got: {:?}", other),
            },
            other => panic!("Expected second If, got: {:?}", other),
        },
        other => panic!("Expected If, got: {:?}", other),
    }
}

#[test]
fn other_statement_forms() {
    let program = parse("while true {\n  break\n  continue\n}").unwrap();
    match &program.statements[0] {
        Statement::While { body, .. } => {
            assert!(matches!(&body[0], Statement::Break { location } if *location == loc(2, 3)));
            assert!(matches!(&body[1], Statement::Continue { location } if *location == loc(3, 3)));
        }
        other => panic!("Expected While, got: {:?}", other),
    }
    let program = parse("throw err").unwrap();
    assert!(matches!(&program.statements[0], Statement::Throw { value: Expr::Identifier { .. }, .. }));
    let program = parse("try {\n  f()\n} catch (e) {\n  print e\n}").unwrap();
    match &program.statements[0] {
        Statement::TryCatch { try_body, catch_var, catch_body, .. } => {
            assert_eq!(try_body.len(), 1);
            assert_eq!(catch_var, "e");
            assert_eq!(catch_body.len(), 1);
        }
        other => panic!("Expected TryCatch, got: {:?}", other),
    }
    let program = parse("class Point {\n  def norm(a) {\n    return a\n  }\n}").unwrap();
    match &program.statements[0] {
        Statement::ClassDef { name, methods, .. } => {
            assert_eq!(name, "Point");
            assert_eq!(methods.len(), 1);
        }
        other => panic!("Expected ClassDef, got: {:?}", other),
    }
}

#[test]
fn other_expression_forms() {
    let program = parse("x = null").unwrap();
    assert!(matches!(assigned_value(&program), Expr::NullLiteral { .. }));
    let program = parse("x = new Point(1, 2)").unwrap();
    match assigned_value(&program) {
        Expr::New { class_name, args, location } => {
            assert_eq!(class_name, "Point");
            assert_eq!(args.len(), 2);
            assert_eq!(*location, loc(1, 5));
        }
        other => panic!("Expected New, got: {:?}", other),
    }
    let program = parse("x = obj.run(1, 2).y").unwrap();
    match assigned_value(&program) {
        Expr::MemberAccess { object, member, .. } => {
            assert_eq!(member, "y");
            match object.as_ref() {
                Expr::MethodCall { object, method, args, .. } => {
                    assert_eq!(ident_name(object), "obj");
                    assert_eq!(method, "run");
                    assert_eq!(args.len(), 2);
                }
                other => panic!("Expected MethodCall, got: {:?}", other),
            }
        }
        other => panic!("Expected MemberAccess, got: {:?}", other),
    }
}

#[test]
fn errors_in_the_other_forms() {
    assert_eq!(parse_error("try {\n} catch e {\n}"), ("Expected (, found IDENTIFIER(e)".to_string(), loc(2, 9)));
    assert_eq!(parse_error("try {\n} catch (1) {\n}"), ("Expected variable name after 'catch ('".to_string(), loc(2, 10)));
    assert_eq!(parse_error("try {\n}"), ("Expected CATCH, found EOF".to_string(), loc(2, 2)));
    assert_eq!(parse_error("class {\n}"), ("Expected class name after 'class'".to_string(), loc(1, 7)));
    assert_eq!(parse_error("x = new 5"), ("Expected class name after 'new'".to_string(), loc(1, 9)));
    assert_eq!(parse_error("x = new P"), ("Expected (, found EOF".to_string(), loc(1, 10)));
}

#[test]
fn analysis_of_the_other_forms() {
    // The catch variable is not bound; method, member and class names are not checked.
    let ds = diagnostics("try {\n  x = 1\n  print x\n} catch (e) {\n  print e\n}");
    assert_eq!(ds.len(), 1);
    assert_eq!(ds[0].message, "Undefined variable 'e'");
    let ds = diagnostics("o = 1\nprint o.run(q)\nprint new P(r)\nn = null\nprint n");
    let errs: Vec<&str> = ds.iter().map(|d| d.message.as_str()).collect();
    assert_eq!(errs, vec!["Undefined variable 'q'", "Undefined variable 'r'"]);
    let ds = diagnostics("x = 1\nx += y\nprint x");
    assert_eq!(ds.len(), 1);
    assert_eq!(ds[0].message, "Undefined variable 'y'");
}

#[test]
fn reading_marks_only_the_innermost_binding() {
    // The parameter x shadows the global x, so the global stays unread.
    let ds = diagnostics("x = 1\ndef f(x) {\n  print x\n}");
    assert_eq!(ds.len(), 1);
    assert_eq!(ds[0].message, "Variable 'x' is defined but never used");
}

#[test]
fn errors_come_before_warnings() {
    let ds = diagnostics("a = 1\nprint b\nc = 2\nreturn 0");
    let severities: Vec<Severity> = ds.iter().map(|d| d.severity.clone()).collect();
    assert_eq!(severities, vec![Severity::Error, Severity::Error, Severity::Warning, Severity::Warning]);
}

#[test]
fn self_as_parameter_and_value() {
    let source = "class P {\n  def m(self, a) {\n    return self.x\n  }\n}";
    let program = parse(source).unwrap();
    match &program.statements[0] {
        Statement::ClassDef { methods, .. } => match &methods[0] {
            Statement::FunctionDef { params, body, .. } => {
                assert_eq!(params, &vec!["self".to_string(), "a".to_string()]);
                match &body[0] {
                    Statement::Return { value: Some(Expr::MemberAccess { object, member, .. }), .. } => {
                        assert_eq!(member, "x");
                        assert_eq!(ident_name(object), "self");
                    }
                    other => panic!("Expected return of self.x, got: {:?}", other),
                }
            }
            other => panic!("Expected FunctionDef, got: {:?}", other),
        },
        other => panic!("Expected ClassDef, got: {:?}", other),
    }
    assert!(diagnostics(source).is_empty());
    let ds = diagnostics("print self");
    assert_eq!(ds.len(), 1);
    assert_eq!(ds[0].message, "Undefined variable 'self'");
}

#[test]
fn returns_outside_every_function_are_reported() {
    let ds = diagnostics(
        "if true {\n  return 1\n}\ndef f() {\n  if true {\n    return 2\n  }\n}\nwhile false {\n  return 3\n}",
    );
    let locations: Vec<Option<SourceLocation>> = ds
        .iter()
        .filter(|d| d.message == "'return' used outside of a function")
        .map(|d| d.location.clone())
        .collect();
    assert_eq!(locations, vec![Some(loc(2, 3)), Some(loc(10, 3))]);
}

#[test]
fn parameters_do_not_outlive_the_body() {
    let ds = diagnostics("def f(a) {\n  b = a\n}\nprint a\nprint b");
    let messages: Vec<&str> = ds.iter().map(|d| d.message.as_str()).collect();
    assert_eq!(messages, vec!["Undefined variable 'a'", "Undefined variable 'b'"]);
}

#[test]
fn arity_error_comes_between_callee_and_arguments() {
    let ds = diagnostics("def g(a) {\n  return a\n}\nprint g(u, v)\nprint len(w)");
    let messages: Vec<&str> = ds.iter().map(|d| d.message.as_str()).collect();
    assert_eq!(
        messages,
        vec![
            "Function 'g' expects 1 argument(s), but 2 were given",
            "Undefined variable 'u'",
            "Undefined variable 'v'",
            "Undefined variable 'w'",
        ]
    );
    assert_eq!(ds[0].location, Some(loc(4, 8)));
}

#[test]
fn fresh_analysis_order() {
    let ds = diagnostics("def f() {\n  print z\n}\nk = 1\ndef f() {\n  print 1\n}\nf()");
    let messages: Vec<&str> = ds.iter().map(|d| d.message.as_str()).collect();
    assert_eq!(
        messages,
        vec![
            "Function 'f' is already defined",
            "Undefined variable 'z'",
            "Variable 'k' is defined but never used",
        ]
    );
}
