use kelpyshark::ast::{BinaryOperator, Expr, Program, Statement, UnaryOperator};
use kelpyshark::error::KelpyResult;
use kelpyshark::lexer::Lexer;
use kelpyshark::parser::Parser;

/// Parses source code into a program.
fn parse(source: &str) -> KelpyResult<Program> {
    let mut lexer = Lexer::new(source);
    let tokens = lexer.tokenize()?;
    let mut parser = Parser::new(tokens);
    parser.parse()
}

#[test]
fn test_simple_assignment() {
    let program = parse("x = 42").unwrap();
    assert_eq!(program.statements.len(), 1);
    match &program.statements[0] {
        Statement::Assignment { name, .. } => assert_eq!(name, "x"),
        other => panic!("Expected Assignment, got: {:?}", other),
    }
}

#[test]
fn test_string_assignment() {
    let program = parse(r#"name = "KelpyShark""#).unwrap();
    assert_eq!(program.statements.len(), 1);
    match &program.statements[0] {
        Statement::Assignment { name, value, .. } => {
            assert_eq!(name, "name");
            match value {
                Expr::StringLiteral { value: s, .. } => assert_eq!(s, "KelpyShark"),
                other => panic!("Expected StringLiteral, got: {:?}", other),
            }
        }
        other => panic!("Expected Assignment, got: {:?}", other),
    }
}

#[test]
fn test_binary_expression() {
    let program = parse("x = 1 + 2 * 3").unwrap();
    match &program.statements[0] {
        Statement::Assignment { value, .. } => {
            // 1 + (2 * 3) by precedence
            match value {
                Expr::BinaryOp { op, .. } => {
                    assert_eq!(*op, BinaryOperator::Add);
                }
                other => panic!("Expected BinaryOp, got: {:?}", other),
            }
        }
        other => panic!("Expected Assignment, got: {:?}", other),
    }
}

#[test]
fn test_operator_precedence() {
    // 2 + 3 * 4 is 2 + (3 * 4), not (2 + 3) * 4
    let program = parse("x = 2 + 3 * 4").unwrap();
    match &program.statements[0] {
        Statement::Assignment { value, .. } => match value {
            Expr::BinaryOp { op, left, right, .. } => {
                assert_eq!(*op, BinaryOperator::Add);
                match left.as_ref() {
                    Expr::NumberLiteral { value: n, .. } => assert_eq!(n.parse::<f64>().unwrap(), 2.0),
                    other => panic!("Expected NumberLiteral(2), got: {:?}", other),
                }
                match right.as_ref() {
                    Expr::BinaryOp { op, .. } => {
                        assert_eq!(*op, BinaryOperator::Multiply);
                    }
                    other => panic!("Expected BinaryOp(*), got: {:?}", other),
                }
            }
            other => panic!("Expected BinaryOp, got: {:?}", other),
        },
        other => panic!("Expected Assignment, got: {:?}", other),
    }
}

#[test]
fn test_function_def() {
    let program = parse("def greet(name) {\n  print name\n}").unwrap();
    assert_eq!(program.statements.len(), 1);
    match &program.statements[0] {
        Statement::FunctionDef { name, params, body, .. } => {
            assert_eq!(name, "greet");
            assert_eq!(params, &vec!["name".to_string()]);
            assert_eq!(body.len(), 1);
        }
        other => panic!("Expected FunctionDef, got: {:?}", other),
    }
}

#[test]
fn test_function_multiple_params() {
    let program = parse("def add(a, b) {\n  return a + b\n}").unwrap();
    match &program.statements[0] {
        Statement::FunctionDef { params, body, .. } => {
            assert_eq!(params, &vec!["a".to_string(), "b".to_string()]);
            assert_eq!(body.len(), 1);
            match &body[0] {
                Statement::Return { value: Some(_), .. } => {}
                other => panic!("Expected Return, got: {:?}", other),
            }
        }
        other => panic!("Expected FunctionDef, got: {:?}", other),
    }
}

#[test]
fn test_if_statement() {
    let program = parse("if x >= 5 {\n  print x\n}").unwrap();
    match &program.statements[0] {
        Statement::If { then_body, else_body, .. } => {
            assert_eq!(then_body.len(), 1);
            assert!(else_body.is_none());
        }
        other => panic!("Expected If, got: {:?}", other),
    }
}

#[test]
fn test_if_else() {
    let program = parse("if x >= 5 {\n  print x\n} else {\n  print y\n}").unwrap();
    match &program.statements[0] {
        Statement::If { then_body, else_body, .. } => {
            assert_eq!(then_body.len(), 1);
            assert!(else_body.is_some());
            assert_eq!(else_body.as_ref().unwrap().len(), 1);
        }
        other => panic!("Expected If, got: {:?}", other),
    }
}

#[test]
fn test_while_loop() {
    let program = parse("while x < 10 {\n  x = x + 1\n}").unwrap();
    match &program.statements[0] {
        Statement::While { body, .. } => {
            assert_eq!(body.len(), 1);
        }
        other => panic!("Expected While, got: {:?}", other),
    }
}

#[test]
fn test_for_loop() {
    let program = parse("for item in items {\n  print item\n}").unwrap();
    match &program.statements[0] {
        Statement::For { variable, .. } => {
            assert_eq!(variable, "item");
        }
        other => panic!("Expected For, got: {:?}", other),
    }
}

#[test]
fn parser_test_list_literal() {
    let program = parse(r#"x = ["apple", "banana", "orange"]"#).unwrap();
    match &program.statements[0] {
        Statement::Assignment { value, .. } => match value {
            Expr::ListLiteral { elements, .. } => {
                assert_eq!(elements.len(), 3);
            }
            other => panic!("Expected ListLiteral, got: {:?}", other),
        },
        other => panic!("Expected Assignment, got: {:?}", other),
    }
}

#[test]
fn parser_test_dict_literal() {
    let program = parse(r#"x = {"name": "Bob", "age": 27}"#).unwrap();
    match &program.statements[0] {
        Statement::Assignment { value, .. } => match value {
            Expr::DictLiteral { entries, .. } => {
                assert_eq!(entries.len(), 2);
            }
            other => panic!("Expected DictLiteral, got: {:?}", other),
        },
        other => panic!("Expected Assignment, got: {:?}", other),
    }
}

#[test]
fn test_function_call() {
    let program = parse("greet(name)").unwrap();
    match &program.statements[0] {
        Statement::ExprStatement { expr, .. } => match expr {
            Expr::FunctionCall { args, .. } => {
                assert_eq!(args.len(), 1);
            }
            other => panic!("Expected FunctionCall, got: {:?}", other),
        },
        other => panic!("Expected ExprStatement, got: {:?}", other),
    }
}

#[test]
fn test_index_access() {
    let program = parse(r#"x = list[0]"#).unwrap();
    match &program.statements[0] {
        Statement::Assignment { value, .. } => match value {
            Expr::Index { .. } => {}
            other => panic!("Expected Index, got: {:?}", other),
        },
        other => panic!("Expected Assignment, got: {:?}", other),
    }
}

#[test]
fn test_member_access() {
    let program = parse("x = obj.field").unwrap();
    match &program.statements[0] {
        Statement::Assignment { value, .. } => match value {
            Expr::MemberAccess { member, .. } => {
                assert_eq!(member, "field");
            }
            other => panic!("Expected MemberAccess, got: {:?}", other),
        },
        other => panic!("Expected Assignment, got: {:?}", other),
    }
}

#[test]
fn test_string_interpolation() {
    let program = parse(r#"x = "Hello {$name}!""#).unwrap();
    match &program.statements[0] {
        Statement::Assignment { value, .. } => match value {
            Expr::StringInterpolation { parts, .. } => {
                assert_eq!(parts.len(), 3); // "Hello ", name, "!"
            }
            other => panic!("Expected StringInterpolation, got: {:?}", other),
        },
        other => panic!("Expected Assignment, got: {:?}", other),
    }
}

#[test]
fn test_import() {
    let program = parse("import math").unwrap();
    match &program.statements[0] {
        Statement::Import { module, .. } => {
            assert_eq!(module, "math");
        }
        other => panic!("Expected Import, got: {:?}", other),
    }
}

#[test]
fn test_dotted_import() {
    let program = parse("import http.server").unwrap();
    match &program.statements[0] {
        Statement::Import { module, .. } => {
            assert_eq!(module, "http.server");
        }
        other => panic!("Expected Import, got: {:?}", other),
    }
}

#[test]
fn test_unary_negate() {
    let program = parse("x = -5").unwrap();
    match &program.statements[0] {
        Statement::Assignment { value, .. } => match value {
            Expr::UnaryOp { op: UnaryOperator::Negate, .. } => {}
            other => panic!("Expected UnaryOp(Negate), got: {:?}", other),
        },
        other => panic!("Expected Assignment, got: {:?}", other),
    }
}

#[test]
fn test_boolean_expressions() {
    let program = parse("x = true and false").unwrap();
    match &program.statements[0] {
        Statement::Assignment { value, .. } => match value {
            Expr::BinaryOp { op: BinaryOperator::And, .. } => {}
            other => panic!("Expected BinaryOp(And), got: {:?}", other),
        },
        other => panic!("Expected Assignment, got: {:?}", other),
    }
}

#[test]
fn test_parse_error_unexpected_token() {
    let result = parse("x = = 5");
    assert!(result.is_err());
}

#[test]
fn test_full_example() {
    let source = r#"
bob = {
    "age": "27 years",
    "name": "Bob Smith"
}

example_list = ["apple", "banana", "orange"]

def example_function(value, thing) {
    print "You have some items!"

    if value >= 25 {
        print "You lost."
    }
}

example_function(42, "point")
"#;
    let program = parse(source);
    assert!(program.is_ok(), "Full example should parse: {:?}", program.err());
    let program = program.unwrap();
    // bob assignment, example_list assignment, function def, function call
    assert_eq!(program.statements.len(), 4);
}
