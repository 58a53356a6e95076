// Tests of the single parts: tracker, suggestions, expressions, entry points
use sql_parser_demo::error::{suggest_keyword, Backtrace};
use sql_parser_demo::parser::{parse_sql, parse_sql_to_string, Parser};
use sql_parser_demo::token::tokenize;

#[test]
fn test_simple_cte() {
    let sql = "WITH t AS (SELECT 1) SELECT * FROM t";
    // For testing, we'll parse and check the string representation
    let result = parse_sql_to_string(sql);
    assert!(result.is_ok());
    let ast_str = result.unwrap();
    assert!(ast_str.contains("With"));
    assert!(ast_str.contains("ctes"));
}

#[test]
fn test_recursive_cte() {
    let sql = "WITH RECURSIVE t(n) AS (SELECT 1) SELECT * FROM t";
    let result = parse_sql_to_string(sql);
    assert!(result.is_ok());
    let ast_str = result.unwrap();
    assert!(ast_str.contains("recursive: true"));
}

#[test]
fn test_furthest_error() {
    let mut backtrace = Backtrace::new();
    let input = "SELECT * FORM users";

    // Track errors at different positions
    backtrace.track_error(9, "FROM", Some("FORM"), input);
    backtrace.track_error(0, "INSERT", Some("SELECT"), input);

    let error = backtrace.get_error(input);

    // Should report the furthest error (position 9)
    assert!(error.message.contains("FROM"));
    assert!(error.message.contains("FORM"));
    assert_eq!(error.suggestion, Some("FROM".to_string()));
}

#[test]
fn test_multiple_errors_furthest_wins() {
    let mut backtrace = Backtrace::new();
    let input = "SLECT * FORM users WHEER age > 18";

    // Track errors at different positions
    backtrace.track_error(0, "SELECT", Some("SLECT"), input);
    backtrace.track_error(8, "FROM", Some("FORM"), input);
    backtrace.track_error(19, "WHERE", Some("WHEER"), input);

    let error = backtrace.get_error(input);

    // Should report the furthest error (position 19 - WHERE)
    assert!(error.message.contains("WHERE"));
    assert!(error.message.contains("WHEER"));
    assert_eq!(error.suggestion, Some("WHERE".to_string()));
    assert_eq!(error.line, 1);
    assert_eq!(error.column, 20); // position 19 + 1 for column
}

#[test]
fn test_suggestion() {
    assert_eq!(suggest_keyword("SELCT"), Some("SELECT".to_string()));
    assert_eq!(suggest_keyword("FORM"), Some("FROM".to_string()));
    assert_eq!(suggest_keyword("WHEER"), Some("WHERE".to_string()));
    assert_eq!(suggest_keyword("xyz"), None);
}

#[test]
fn test_precedence() {
    let input = "2 + 3 * 4";
    let tokens = tokenize(input);
    let backtrace = Backtrace::new();
    let mut parser = Parser::new(&tokens, backtrace, input);

    let expr = parser.parse_expr().unwrap();

    // Should parse as (2 + (3 * 4))
    assert_eq!(expr.to_string(), "(2 + (3 * 4))");
}

#[test]
fn test_complex_expression() {
    let input = "age > 18 AND status = 'active' OR admin = 1";
    let tokens = tokenize(input);
    let backtrace = Backtrace::new();
    let mut parser = Parser::new(&tokens, backtrace, input);

    let expr = parser.parse_expr().unwrap();

    // Should parse with correct precedence
    let expected = "(((age > 18) AND (status = 'active')) OR (admin = 1))";
    assert_eq!(expr.to_string(), expected);
}

#[test]
fn test_parse_select() {
    let sql = "SELECT * FROM users";
    assert!(parse_sql(sql).is_ok());
}

#[test]
fn test_parse_where() {
    let sql = "SELECT * FROM users WHERE age > 18";
    assert!(parse_sql(sql).is_ok());
}

#[test]
fn main_test_parse_cte() {
    let sql = "WITH t AS (SELECT 1) SELECT * FROM t";
    assert!(parse_sql(sql).is_ok());
}

#[test]
fn test_error_recovery() {
    let sql = "SELCT * FROM users";
    let result = parse_sql(sql);
    assert!(result.is_err());

    if let Err(e) = result {
        assert!(e.suggestion.is_some());
        assert_eq!(e.suggestion.unwrap(), "SELECT");
    }
}

#[test]
fn test_parse_to_string() {
    let sql = "SELECT * FROM users";
    let result = parse_sql_to_string(sql);
    assert!(result.is_ok());
    let ast_str = result.unwrap();
    assert!(ast_str.contains("Query"));
    assert!(ast_str.contains("Select"));
}
