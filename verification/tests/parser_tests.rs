// Tests of the parser: trees, diagnostics and heuristics
use sql_parser_demo::ast::{Query, Statement};
use sql_parser_demo::error::Backtrace;
use sql_parser_demo::expr::{
    check_decimal, get_precedence, parse_integer, strip_quotes, BinaryOp, Expr, Literal,
};
use sql_parser_demo::parser::{parse_sql, parse_sql_to_string, Parser};
use sql_parser_demo::token::{tokenize, TokenKind};

fn expr_text(sql: &str) -> String {
    let tokens = tokenize(sql);
    let mut parser = Parser::new(&tokens, Backtrace::new(), sql);
    parser.parse_expr().unwrap().to_string()
}

fn statement_text(sql: &str) -> String {
    let tokens = tokenize(sql);
    let mut parser = Parser::new(&tokens, Backtrace::new(), sql);
    parser.parse_statement().unwrap().to_string()
}

#[test]
fn operators_of_one_power_lean_left() {
    assert_eq!(expr_text("a - b - c"), "((a - b) - c)");
    assert_eq!(expr_text("a / b * c / d"), "(((a / b) * c) / d)");
    assert_eq!(expr_text("a = b != c"), "((a = b) != c)");
    assert_eq!(expr_text("a OR b OR c"), "((a OR b) OR c)");
}

#[test]
fn tighter_operators_lie_deeper() {
    assert_eq!(expr_text("a OR b AND c"), "(a OR (b AND c))");
    assert_eq!(expr_text("a AND b OR c"), "((a AND b) OR c)");
    assert_eq!(expr_text("a + b * c - d"), "((a + (b * c)) - d)");
    assert_eq!(expr_text("a < b + 1 AND c >= d * 2"), "((a < (b + 1)) AND (c >= (d * 2)))");
    assert_eq!(expr_text("a = b < c"), "(a = (b < c))");
}

#[test]
fn parentheses_are_kept() {
    assert_eq!(expr_text("(a + b) * c"), "(((a + b)) * c)");
    assert_eq!(expr_text("((a))"), "((a))");
    assert_eq!(expr_text("a * (b OR c)"), "(a * ((b OR c)))");
}

#[test]
fn the_binding_powers() {
    assert_eq!(get_precedence(TokenKind::Or), Some((10, true)));
    assert_eq!(get_precedence(TokenKind::And), Some((20, true)));
    assert_eq!(get_precedence(TokenKind::Equal), Some((30, true)));
    assert_eq!(get_precedence(TokenKind::NotEqual), Some((30, true)));
    assert_eq!(get_precedence(TokenKind::Less), Some((40, true)));
    assert_eq!(get_precedence(TokenKind::Greater), Some((40, true)));
    assert_eq!(get_precedence(TokenKind::LessEqual), Some((40, true)));
    assert_eq!(get_precedence(TokenKind::GreaterEqual), Some((40, true)));
    assert_eq!(get_precedence(TokenKind::Plus), Some((50, true)));
    assert_eq!(get_precedence(TokenKind::Minus), Some((50, true)));
    assert_eq!(get_precedence(TokenKind::Star), Some((60, true)));
    assert_eq!(get_precedence(TokenKind::Slash), Some((60, true)));
    assert_eq!(get_precedence(TokenKind::Comma), None);
    assert_eq!(get_precedence(TokenKind::Eof), None);
    assert_eq!(BinaryOp::from_token(TokenKind::Star), Some(BinaryOp::Multiply));
    assert_eq!(BinaryOp::from_token(TokenKind::Slash), Some(BinaryOp::Divide));
    assert_eq!(BinaryOp::from_token(TokenKind::Select), None);
    assert_eq!(BinaryOp::NotEqual.to_string(), "!=");
    assert_eq!(BinaryOp::And.symbol(), "AND");
}

#[test]
fn literals_are_read_from_their_text() {
    let sql = "* 42 -7 1.50 'it\\'s' '' name";
    let tokens = tokenize(sql);
    let mut parser = Parser::new(&tokens, Backtrace::new(), sql);
    parser.advance();
    let mut found = Vec::new();
    for _ in 0..6 {
        found.push(parser.parse_expr().unwrap());
    }
    let star = "*";
    let star_tokens = tokenize(star);
    found.push(Parser::new(&star_tokens, Backtrace::new(), star).parse_expr().unwrap());
    assert_eq!(found[0], Expr::Literal(Literal::Number(42)));
    assert_eq!(found[1], Expr::Literal(Literal::Number(-7)));
    assert_eq!(found[2], Expr::Literal(Literal::Float("1.50")));
    assert_eq!(found[3], Expr::Literal(Literal::String("it\\'s")));
    assert_eq!(found[4], Expr::Literal(Literal::String("")));
    assert_eq!(found[5], Expr::Column("name"));
    assert_eq!(found[6], Expr::Star);
    assert_eq!(found[1].to_string(), "-7");
    assert_eq!(found[2].to_string(), "1.50");
    assert_eq!(found[3].to_string(), "'it\\'s'");
    assert_eq!(found[6].clone(), Expr::Star);
    assert_eq!(Literal::Number(i64::MIN).to_string(), "-9223372036854775808");
    assert_eq!(Literal::Number(0).to_string(), "0");
}

#[test]
fn integers_must_fit() {
    assert_eq!(parse_integer("0"), Some(0));
    assert_eq!(parse_integer("007"), Some(7));
    assert_eq!(parse_integer("+15"), Some(15));
    assert_eq!(parse_integer("-15"), Some(-15));
    assert_eq!(parse_integer("9223372036854775807"), Some(i64::MAX));
    assert_eq!(parse_integer("-9223372036854775808"), Some(i64::MIN));
    assert_eq!(parse_integer("9223372036854775808"), None);
    assert_eq!(parse_integer("-9223372036854775809"), None);
    assert_eq!(parse_integer("99999999999999999999999"), None);
    assert_eq!(parse_integer(""), None);
    assert_eq!(parse_integer("-"), None);
    assert_eq!(parse_integer("+"), None);
    assert_eq!(parse_integer("1a"), None);
    assert_eq!(parse_integer(" 1"), None);
    assert_eq!(parse_integer("1_000"), None);
    assert_eq!(parse_integer("--1"), None);
}

#[test]
fn floats_need_digits_on_both_sides() {
    assert!(check_decimal("1.5"));
    assert!(check_decimal("-0.25"));
    assert!(check_decimal("100.000"));
    assert!(!check_decimal("1."));
    assert!(!check_decimal(".5"));
    assert!(!check_decimal("1"));
    assert!(!check_decimal("1.5.2"));
    assert!(!check_decimal("+1.5"));
    assert!(!check_decimal("1.5e3"));
    assert!(!check_decimal("-"));
    assert!(!check_decimal(""));
}

#[test]
fn quotes_are_cut_off() {
    assert_eq!(strip_quotes("'abc'"), "abc");
    assert_eq!(strip_quotes("''"), "");
    assert_eq!(strip_quotes("'é'"), "é");
}

#[test]
fn a_number_that_does_not_fit_is_rejected() {
    let sql = "a + 99999999999999999999 + 1";
    let tokens = tokenize(sql);
    let mut parser = Parser::new(&tokens, Backtrace::new(), sql);
    let error = parser.parse_expr().unwrap_err();
    assert_eq!(error.message, "Invalid number");
    assert_eq!(error.line, 1);
    assert_eq!(error.column, 5);
    // the failure is reported at the literal, which is taken all the same
    assert_eq!(
        parser.backtrace().get_error(sql).message,
        "Expected number, found '99999999999999999999'"
    );
    assert_eq!(parser.current().unwrap().kind, TokenKind::Plus);
}

#[test]
fn a_float_that_is_not_written_as_one_is_rejected() {
    let sql = "x";
    let tokens = vec![
        sql_parser_demo::token::Token::new("1e5", TokenKind::Float, 0..1),
        sql_parser_demo::token::Token::new("", TokenKind::Eof, 1..1),
    ];
    let mut parser = Parser::new(&tokens, Backtrace::new(), sql);
    let error = parser.parse_expr().unwrap_err();
    assert_eq!(error.message, "Invalid float");
    assert_eq!((error.line, error.column), (1, 1));
    assert_eq!(parser.backtrace().get_error(sql).message, "Expected float, found '1e5'");
}

#[test]
fn a_missing_term_is_rejected() {
    let sql = "a + FROM";
    let tokens = tokenize(sql);
    let mut parser = Parser::new(&tokens, Backtrace::new(), sql);
    let error = parser.parse_expr().unwrap_err();
    assert_eq!(error.message, "Expected expression, found 'FROM'");
    assert_eq!((error.line, error.column), (1, 5));
    assert_eq!(error.suggestion, Some("FROM".to_string()));
    // the parser stays at the token, and the tracker holds the failure
    assert_eq!(parser.current().unwrap().kind, TokenKind::From);
    assert_eq!(
        parser.backtrace().get_error(sql).message,
        "Expected expression, found 'FROM'"
    );
}

#[test]
fn a_missing_term_at_the_end_is_reported_at_the_end_mark() {
    let sql = "";
    let tokens = tokenize(sql);
    let mut parser = Parser::new(&tokens, Backtrace::new(), sql);
    let error = parser.parse_expr().unwrap_err();
    assert_eq!(error.message, "Expected expression, found ''");
    assert_eq!((error.line, error.column), (1, 1));
    assert_eq!(
        parser.backtrace().get_error(sql).message,
        "Expected expression, found ''"
    );

    let error = parse_sql("SELECT").unwrap_err();
    assert_eq!(error.message, "Expected expression, found ''");
    assert_eq!((error.line, error.column), (1, 7));

    let error = parse_sql("SELECT a,\n  b +").unwrap_err();
    assert_eq!(error.message, "Expected expression, found ''");
    assert_eq!((error.line, error.column), (2, 6));

    let error = parse_sql("SELECT a FROM t WHERE").unwrap_err();
    assert_eq!(error.message, "Expected expression, found ''");
    assert_eq!(error.column, 22);

    let error = parse_sql("SELECT (1 + )").unwrap_err();
    assert_eq!(error.message, "Expected expression, found ')'");
    assert_eq!(error.column, 13);
}

#[test]
fn an_open_parenthesis_is_reported() {
    let sql = "(a + b";
    let tokens = tokenize(sql);
    let mut parser = Parser::new(&tokens, Backtrace::new(), sql);
    let error = parser.parse_expr().unwrap_err();
    assert_eq!(error.message, "Expected RightParen, found ''");
    assert_eq!(error.column, 7);
}

#[test]
fn the_parts_of_a_parser_work_alone() {
    let sql = "SELECT a , b";
    let tokens = tokenize(sql);
    let mut parser = Parser::new(&tokens, Backtrace::new(), sql);
    assert_eq!(parser.current().unwrap().text, "SELECT");
    assert!(!parser.try_consume(TokenKind::From));
    assert!(parser.try_consume(TokenKind::Select));
    assert_eq!(parser.parse_identifier().unwrap(), "a");
    assert_eq!(parser.expect(TokenKind::Comma).unwrap().text, ",");
    assert_eq!(parser.advance().text, "b");
    assert_eq!(parser.current().unwrap().kind, TokenKind::Eof);
    assert_eq!(parser.advance().kind, TokenKind::Eof);
    assert_eq!(parser.current().unwrap().kind, TokenKind::Eof);
    let error = parser.parse_identifier().unwrap_err();
    assert_eq!(error.message, "Expected identifier, found ''");
    assert_eq!(error.column, 13);
    let error = parser.expect(TokenKind::RightParen).unwrap_err();
    assert_eq!(error.message, "Expected one of: identifier, RightParen, found ''");
    assert_eq!(parser.error_at_current("Nothing left").message, "Nothing left");
    assert_eq!(parser.error_at_current("Nothing left").column, 13);
}

#[test]
fn a_with_clause_records_its_structure() {
    let sql = "WITH RECURSIVE t(n) AS (SELECT 1) SELECT * FROM t";
    let tokens = tokenize(sql);
    let mut parser = Parser::new(&tokens, Backtrace::new(), sql);
    let Statement::Query(query) = parser.parse_statement().unwrap();
    match query {
        Query::With { with, query } => {
            assert!(with.recursive);
            assert_eq!(with.ctes.len(), 1);
            assert_eq!(with.ctes[0].name, "t");
            assert_eq!(with.ctes[0].columns, Some(vec!["n"]));
            match &*with.ctes[0].query {
                Query::Select(select) => {
                    assert_eq!(select.projection, vec![Expr::Literal(Literal::Number(1))]);
                    assert!(select.from.is_none());
                    assert!(select.where_clause.is_none());
                }
                other => panic!("not a SELECT: {:?}", other),
            }
            match *query {
                Query::Select(select) => {
                    assert_eq!(select.projection, vec![Expr::Star]);
                    assert_eq!(select.from.as_ref().unwrap().name, "t");
                    assert_eq!(select.from.as_ref().unwrap().alias, None);
                }
                other => panic!("not a SELECT: {:?}", other),
            }
        }
        other => panic!("not a WITH: {:?}", other),
    }
}

#[test]
fn statements_are_written_out() {
    assert_eq!(
        statement_text("with recursive t ( n , m ) as ( select 1 , 2 ) , u as ( select * from t ) select n from u x where n > 1"),
        "WITH RECURSIVE t(n, m) AS (SELECT 1, 2), u AS (SELECT * FROM t) SELECT n FROM u AS x WHERE (n > 1)"
    );
    assert_eq!(statement_text("WITH t AS (SELECT 1) SELECT * FROM t"), "WITH t AS (SELECT 1) SELECT * FROM t");
    assert_eq!(statement_text("SELECT a, b + 1, 'c' FROM t AS u"), "SELECT a, (b + 1), 'c' FROM t AS u");
}

#[test]
fn unions_nest_to_the_right() {
    let sql = "SELECT 1 UNION SELECT 2 UNION ALL SELECT 3";
    let tokens = tokenize(sql);
    let mut parser = Parser::new(&tokens, Backtrace::new(), sql);
    let query = parser.parse_query().unwrap();
    match &query {
        Query::Union { left, all, right } => {
            assert!(matches!(**left, Query::Select(_)));
            assert!(!*all);
            match &**right {
                Query::Union { left, all, right } => {
                    assert!(matches!(**left, Query::Select(_)));
                    assert!(*all);
                    assert!(matches!(**right, Query::Select(_)));
                }
                other => panic!("not a UNION: {:?}", other),
            }
        }
        other => panic!("not a UNION: {:?}", other),
    }
    assert_eq!(query.to_string(), "SELECT 1 UNION  SELECT 2 UNION ALL SELECT 3");
}

#[test]
fn a_with_clause_may_stand_inside_a_query() {
    assert_eq!(
        statement_text("WITH a AS (WITH b AS (SELECT 1) SELECT * FROM b) SELECT * FROM a"),
        "WITH a AS (WITH b AS (SELECT 1) SELECT * FROM b) SELECT * FROM a"
    );
}

#[test]
fn what_follows_a_statement_is_left_alone() {
    let sql = "SELECT a FROM t ; SELECT b";
    let tokens = tokenize(sql);
    let mut parser = Parser::new(&tokens, Backtrace::new(), sql);
    assert_eq!(parser.parse_statement().unwrap().to_string(), "SELECT a FROM t");
    assert_eq!(parser.current().unwrap().kind, TokenKind::Semicolon);
}

#[test]
fn the_debug_form_names_every_part() {
    assert_eq!(
        parse_sql_to_string("SELECT * FROM users").unwrap(),
        "Query(Select(SelectStmt { projection: [Star], from: Some(TableRef { name: \"users\", alias: None }), where_clause: None }))"
    );
    assert_eq!(
        parse_sql_to_string("SELECT 1.5, 'x' WHERE a = -2").unwrap(),
        "Query(Select(SelectStmt { projection: [Literal(Float(\"1.5\")), Literal(String(\"x\"))], from: None, where_clause: Some(Binary { left: Column(\"a\"), op: Equal, right: Literal(Number(-2)) }) }))"
    );
}

#[test]
fn a_misspelt_from_is_reported() {
    let error = parse_sql("SELECT * FORM users").unwrap_err();
    assert_eq!(error.message, "Expected FROM, found 'FORM'");
    assert_eq!(error.line, 1);
    assert_eq!(error.column, 10);
    assert_eq!(error.suggestion, Some("FROM".to_string()));
    let context = error.context.unwrap();
    assert!(context.starts_with("  1 | SELECT * FORM users\n    |          "));
    assert!(context.contains('^'));

    let error = parse_sql("SELECT a frm t").unwrap_err();
    assert_eq!(error.message, "Expected FROM, found 'frm'");
    assert_eq!(error.suggestion, Some("FROM".to_string()));
}

#[test]
fn a_misspelt_select_lets_the_parser_go_on() {
    let error = parse_sql("SELCT * FORM users").unwrap_err();
    assert_eq!(error.message, "Expected FROM, found 'FORM'");
    assert_eq!(error.column, 9);

    let error = parse_sql("SELEC * FROM users WHERE a = 1").unwrap_err();
    assert_eq!(
        error.message,
        "Expected one of: SELECT, INSERT, UPDATE, DELETE, WITH, found 'SELEC'"
    );
    assert_eq!(error.column, 1);
    assert_eq!(error.suggestion, Some("SELECT".to_string()));
}

#[test]
fn a_short_word_is_not_taken_for_select() {
    let error = parse_sql("SEL * FORM users").unwrap_err();
    assert_eq!(
        error.message,
        "Expected one of: SELECT, INSERT, UPDATE, DELETE, WITH, found 'SEL'"
    );
    let error = parse_sql("users * FORM x").unwrap_err();
    assert_eq!(
        error.message,
        "Expected one of: SELECT, INSERT, UPDATE, DELETE, WITH, found 'users'"
    );
    assert_eq!(error.suggestion, None);
}

#[test]
fn a_misspelt_where_is_reported() {
    let error = parse_sql("SELECT * FROM users WHEER age > 18").unwrap_err();
    assert_eq!(error.message, "Expected WHERE, found 'WHEER'");
    assert_eq!(error.column, 21);
    assert_eq!(error.suggestion, Some("WHERE".to_string()));

    let error = parse_sql("SELECT * FROM users u wehre age > 18").unwrap_err();
    assert_eq!(error.message, "Expected WHERE, found 'wehre'");

    let error = parse_sql("SELECT * FROM users AS u other").unwrap_err();
    assert_eq!(error.message, "Expected WHERE, found 'other'");

    let error = parse_sql("SELECT a whre").unwrap_err();
    assert_eq!(error.message, "Expected WHERE, found 'whre'");
}

#[test]
fn an_identifier_behind_a_table_is_its_alias() {
    assert_eq!(statement_text("SELECT * FROM users u"), "SELECT * FROM users AS u");
    assert_eq!(statement_text("SELECT * FROM users wide"), "SELECT * FROM users AS wide");
    assert_eq!(statement_text("SELECT * FROM users AS where_"), "SELECT * FROM users AS where_");
    assert!(parse_sql("SELECT * FROM users where_").is_err());
    assert!(parse_sql("SELECT * FROM users AS").is_err());
    assert!(parse_sql("SELECT * FROM").is_err());
}

#[test]
fn a_statement_without_a_projection_is_reported_at_its_place() {
    let error = parse_sql("SELECT FROM users").unwrap_err();
    assert_eq!(error.message, "Expected expression, found 'FROM'");
    assert_eq!(error.line, 1);
    assert_eq!(error.column, 8);

    let error = parse_sql("SELECT 99999999999999999999 FROM t").unwrap_err();
    assert_eq!(error.message, "Expected number, found '99999999999999999999'");
    assert_eq!(error.column, 8);
}

#[test]
fn an_open_string_literal_is_not_read_as_a_name() {
    let error = parse_sql("SELECT 'abc").unwrap_err();
    assert_eq!(error.message, "Expected expression, found ''");
    assert_eq!(error.column, 12);
    assert!(parse_sql("SELECT a FROM t WHERE b = 'abc").is_err());
    assert!(parse_sql("SELECT a FROM t WHERE b = 'abc'").is_ok());
}

#[test]
fn lists_are_never_empty() {
    assert!(parse_sql("WITH SELECT 1").is_err());
    assert!(parse_sql("WITH RECURSIVE SELECT 1").is_err());
    assert!(parse_sql("WITH t() AS (SELECT 1) SELECT 1").is_err());
    assert!(parse_sql("SELECT").is_err());
    assert!(parse_sql("SELECT , a").is_err());
    assert!(parse_sql("SELECT a,").is_err());
    assert!(parse_sql("SELECT a, FROM t").is_err());
    assert!(parse_sql("WITH t AS (SELECT 1), SELECT 1").is_err());
}

#[test]
fn an_empty_input_is_rejected() {
    let error = parse_sql("").unwrap_err();
    assert_eq!(
        error.message,
        "Expected one of: SELECT, INSERT, UPDATE, DELETE, WITH, found ''"
    );
    assert_eq!(error.line, 1);
    assert_eq!(error.column, 1);
    assert_eq!(error.suggestion, None);
    assert_eq!(error.context, None);
}

#[test]
fn a_failed_with_clause_keeps_its_failure() {
    let error = parse_sql("WITH t AS SELECT 1 SELECT * FROM t").unwrap_err();
    assert_eq!(error.message, "Expected LeftParen, found 'SELECT'");
    assert_eq!(error.column, 11);

    let error = parse_sql("WITH t(a, AS (SELECT 1) SELECT 1").unwrap_err();
    assert_eq!(error.message, "Expected identifier, found 'AS'");

    let error = parse_sql("WITH t AS (SELECT 1) , SELECT 1").unwrap_err();
    assert_eq!(error.message, "Expected identifier, found 'SELECT'");

    let error = parse_sql("WITH t AS (SELECT 1").unwrap_err();
    assert_eq!(error.message, "Expected RightParen, found ''");

    let error = parse_sql("WITH").unwrap_err();
    assert_eq!(error.message, "Expected identifier, found ''");
    assert_eq!(error.column, 5);
}

#[test]
fn a_failure_on_a_later_line_is_placed_there() {
    let sql = "SELECT *\nFROM users\nWHEER age > 18";
    let error = parse_sql(sql).unwrap_err();
    assert_eq!(error.line, 3);
    assert_eq!(error.column, 1);
    assert!(error.context.unwrap().starts_with("  3 | WHEER age > 18\n    | "));
}

#[test]
fn parsing_takes_any_input() {
    let inputs = [
        "", " ", "(", ")", "((((", "SELECT", "SELECT (", "SELECT ((1)", "SELECT *,", "SELECT 1 +",
        "SELECT * FROM", "SELECT * WHERE", "WITH", "WITH RECURSIVE", "WITH t", "WITH t AS",
        "WITH t AS (", "WITH t AS ()", "WITH t (", "WITH t () AS (SELECT 1) SELECT 1",
        "SELECT 1 UNION", "SELECT 1 UNION ALL", "UNION", "é", "SELECT 'é", "\n\n\n", "-- only",
        "SELECT * * *", "* * *", "SELECT 1 1 1", "sélect", "\u{17f}ELECT 1", "SELCT\n*\nFORM\nx",
        "SELECT\r\n*\r\nFROM\r\n", ";;;", "1.5.5.5", "SELECT - FROM t",
    ];
    for input in inputs {
        match parse_sql(input) {
            Ok(()) => assert!(parse_sql_to_string(input).is_ok()),
            Err(error) => {
                assert!(error.line >= 1);
                assert!(error.column >= 1);
                assert!(!error.message.is_empty());
                assert!(parse_sql_to_string(input).is_err());
                assert!(!error.to_string().is_empty());
            }
        }
    }
}
