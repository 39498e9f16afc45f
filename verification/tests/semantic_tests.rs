use kelpyshark::lexer::Lexer;
use kelpyshark::parser::Parser;
use kelpyshark::semantic::{Diagnostic, SemanticAnalyzer, Severity};

fn analyze_source(source: &str) -> Vec<Diagnostic> {
    let mut lexer = Lexer::new(source);
    let tokens = lexer.tokenize().unwrap();
    let mut parser = Parser::new(tokens);
    let program = parser.parse().unwrap();
    let mut analyzer = SemanticAnalyzer::new();
    analyzer.analyze(&program)
}

fn errors(source: &str) -> Vec<Diagnostic> {
    analyze_source(source)
        .into_iter()
        .filter(|d| d.severity == Severity::Error)
        .collect()
}

fn warnings(source: &str) -> Vec<Diagnostic> {
    analyze_source(source)
        .into_iter()
        .filter(|d| d.severity == Severity::Warning)
        .collect()
}

#[test]
fn test_valid_program() {
    let errs = errors("x = 42\nprint x");
    assert!(errs.is_empty(), "Expected no errors, got: {:?}", errs);
}

#[test]
fn test_undefined_variable() {
    let errs = errors("print y");
    assert_eq!(errs.len(), 1);
    assert!(errs[0].message.contains("Undefined variable 'y'"));
}

#[test]
fn test_variable_defined_after_use() {
    let errs = errors("print x\nx = 10");
    assert_eq!(errs.len(), 1);
    assert!(errs[0].message.contains("Undefined variable 'x'"));
}

#[test]
fn test_function_arity_mismatch() {
    let errs = errors("def add(a, b) {\n  return a + b\n}\nadd(1)");
    assert_eq!(errs.len(), 1);
    assert!(errs[0].message.contains("expects 2 argument(s), but 1"));
}

#[test]
fn test_function_arity_correct() {
    let errs = errors("def add(a, b) {\n  return a + b\n}\nadd(1, 2)");
    assert!(errs.is_empty());
}

#[test]
fn test_duplicate_function() {
    let errs = errors("def foo() {\n  print 1\n}\ndef foo() {\n  print 2\n}");
    assert_eq!(errs.len(), 1);
    assert!(errs[0].message.contains("already defined"));
}

#[test]
fn test_return_outside_function() {
    let errs = errors("return 42");
    assert_eq!(errs.len(), 1);
    assert!(errs[0].message.contains("'return' used outside"));
}

#[test]
fn test_return_inside_function_ok() {
    let errs = errors("def foo() {\n  return 42\n}");
    assert!(errs.is_empty());
}

#[test]
fn test_unused_variable_warning() {
    let warns = warnings("x = 42");
    assert_eq!(warns.len(), 1);
    assert!(warns[0].message.contains("never used"));
}

#[test]
fn test_used_variable_no_warning() {
    let warns = warnings("x = 42\nprint x");
    assert!(warns.is_empty());
}

#[test]
fn test_builtin_functions_are_defined() {
    let errs = errors("x = len(\"hello\")\nprint x");
    assert!(errs.is_empty());
}

#[test]
fn test_nested_scope_access() {
    let errs = errors("x = 10\nif true {\n  print x\n}");
    assert!(errs.is_empty());
}

#[test]
fn test_for_loop_variable() {
    let errs = errors("items = [1, 2, 3]\nfor item in items {\n  print item\n}");
    assert!(errs.is_empty());
}

#[test]
fn test_undefined_in_binary_op() {
    let errs = errors("x = a + b");
    assert_eq!(errs.len(), 2); // both a and b undefined
}

#[test]
fn test_function_call_undefined() {
    let errs = errors("foo(1, 2)");
    assert_eq!(errs.len(), 1);
    assert!(errs[0].message.contains("Undefined variable 'foo'"));
}

#[test]
fn test_check_returns_first_error() {
    let mut lexer = Lexer::new("print unknown_var");
    let tokens = lexer.tokenize().unwrap();
    let mut parser = Parser::new(tokens);
    let program = parser.parse().unwrap();
    let result = SemanticAnalyzer::check(&program);
    assert!(result.is_err());
}

#[test]
fn test_check_returns_ok_for_valid() {
    let mut lexer = Lexer::new("x = 1\nprint x");
    let tokens = lexer.tokenize().unwrap();
    let mut parser = Parser::new(tokens);
    let program = parser.parse().unwrap();
    let result = SemanticAnalyzer::check(&program);
    assert!(result.is_ok());
}
