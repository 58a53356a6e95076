// Properties of tokenizer and parser, each tried on a handful of inputs
use sql_parser_demo::parser::{parse_sql, parse_sql_to_string};
use sql_parser_demo::token::tokenize;

const NAMES: [&str; 8] = ["a", "users", "f1", "w_2", "other", "x9_y", "fromage", "selection"];

const NUMBERS: [&str; 5] = ["0", "1", "42", "9999", "1234"];

const NOISE: [&str; 12] = [
    "",
    "\u{0}\u{1}\u{2}",
    "¡¢£¤¥",
    "'unterminated",
    "\\\\\\",
    "((((((((((",
    "SELECT * FROM users WHERE",
    "\u{10FFFF}\u{FFFD}",
    "a\tb\rc\nd\x0ce",
    "--\n--\n--",
    "𝒮ℰℒℰ𝒞𝒯 * 𝐹𝑅𝒪𝑀 𝓉",
    "1e10 .5 5. 0x10 1_000",
];

#[test]
fn test_tokenizer_never_panics() {
    for input in NOISE {
        let _ = tokenize(input);
    }
}

#[test]
fn test_parser_never_panics_on_valid_tokens() {
    for input in NOISE {
        let _ = parse_sql(input);
    }
}

#[test]
fn test_valid_select_always_parses() {
    for col in NAMES {
        for table in NAMES {
            let sql = format!("SELECT {} FROM {}", col, table);
            assert!(parse_sql(&sql).is_ok(), "Failed to parse: {}", sql);
        }
    }
}

#[test]
fn test_valid_select_with_where_always_parses() {
    let conditions = ["a = 1", "b > 'x y'", "c < 20", "d >= 0", "e <= 9999", "f != ''"];
    for col in NAMES {
        for condition in conditions {
            let sql = format!("SELECT {} FROM {} WHERE {}", col, NAMES[1], condition);
            assert!(parse_sql(&sql).is_ok(), "Failed to parse: {}", sql);
        }
    }
}

#[test]
fn test_multiple_columns_parse() {
    for count in 1..5 {
        let cols_str = NAMES[..count].join(", ");
        let sql = format!("SELECT {} FROM {}", cols_str, NAMES[4]);
        assert!(parse_sql(&sql).is_ok(), "Failed to parse: {}", sql);
    }
}

#[test]
fn test_cte_with_random_names() {
    for cte_name in NAMES {
        let sql = format!("WITH {} AS (SELECT 1) SELECT * FROM {}", cte_name, cte_name);
        assert!(parse_sql(&sql).is_ok(), "Failed to parse: {}", sql);
    }
}

#[test]
fn test_operator_precedence_preserved() {
    for a in NUMBERS {
        for b in NUMBERS {
            let c = NUMBERS[2];
            let sql1 = format!("SELECT * WHERE {} + {} * {}", a, b, c);
            let sql2 = format!("SELECT * WHERE {} + ({} * {})", a, b, c);

            // Both should parse successfully
            assert!(parse_sql(&sql1).is_ok());
            assert!(parse_sql(&sql2).is_ok());

            // Multiplication binds tighter, with or without the parentheses
            let ast1 = parse_sql_to_string(&sql1).unwrap();
            let ast2 = parse_sql_to_string(&sql2).unwrap();
            assert!(ast1.contains(&format!(
                "Binary {{ left: Literal(Number({})), op: Plus, right: Binary {{ left: Literal(Number({})), op: Multiply",
                a, b
            )));
            assert!(ast2.contains(&format!(
                "Binary {{ left: Literal(Number({})), op: Plus, right: Paren(Binary {{ left: Literal(Number({})), op: Multiply",
                a, b
            )));
        }
    }
}

#[test]
fn test_union_with_random_values() {
    for val1 in NUMBERS {
        for val2 in NUMBERS {
            let sql = format!("SELECT {} UNION SELECT {}", val1, val2);
            assert!(parse_sql(&sql).is_ok());

            let sql_all = format!("SELECT {} UNION ALL SELECT {}", val1, val2);
            assert!(parse_sql(&sql_all).is_ok());
        }
    }
}

#[test]
fn test_nested_parentheses() {
    for depth in 1usize..10 {
        let mut expr = "1".to_string();
        for _ in 0..depth {
            expr = format!("({})", expr);
        }
        let sql = format!("SELECT {}", expr);
        assert!(parse_sql(&sql).is_ok());
    }
}

#[test]
fn test_binary_operators_associativity() {
    for a in NAMES {
        let sql = format!("SELECT * WHERE {} - {} - {}", a, NAMES[1], NAMES[2]);
        assert!(parse_sql(&sql).is_ok());

        // Should parse as ((a - b) - c)
        let ast = parse_sql_to_string(&sql).unwrap();
        assert!(ast.contains(&format!(
            "where_clause: Some(Binary {{ left: Binary {{ left: Column(\"{}\"), op: Minus, right: Column(\"users\") }}, op: Minus, right: Column(\"f1\") }})",
            a
        )));
    }
}

#[test]
fn test_comparison_chain() {
    for count in 2..5 {
        let conditions: Vec<String> = NAMES[..count]
            .iter()
            .zip(NUMBERS.iter())
            .map(|(col, val)| format!("{} = {}", col, val))
            .collect();

        let sql = format!("SELECT * WHERE {}", conditions.join(" AND "));
        assert!(parse_sql(&sql).is_ok());
    }
}

#[test]
fn test_error_messages_contain_position() {
    for input in ["ABCDE", "QWERTYUIOP", "SELEKT", "FROMM", "WHEREE", "INSERT"] {
        // Generate invalid SQL that should fail
        let sql = format!("{} * FROM users", input);

        if let Err(error) = parse_sql(&sql) {
            // Error should contain line and column information
            assert!(error.line >= 1);
            assert!(error.column >= 1);
            assert!(!error.message.is_empty());
        }
    }
}

#[test]
fn test_whitespace_handling() {
    let gaps = [" ", "\t", "\n", "\r\n", " \t\n\r\n", "\n\n\n\n"];
    for ws1 in gaps {
        for ws2 in gaps {
            let sql = format!("SELECT{}{}{}FROM{}{}", ws1, NAMES[1], ws2, ws1, NAMES[3]);
            assert!(parse_sql(&sql).is_ok());
        }
    }
}

#[test]
fn test_typo_suggestions_are_reasonable() {
    for keyword in ["SELECT", "FROM", "WHERE", "WITH"] {
        for typo_char in ['A', 'E', 'K', 'Q', 'X', 'Z'] {
            // Create a typo by replacing one character
            let mut typo = keyword.to_string();
            let idx = typo.len() / 2;
            typo.replace_range(idx..idx + 1, &typo_char.to_string());

            let sql = format!("{} * FROM users", typo);

            if let Err(error) = parse_sql(&sql) {
                // If there's a suggestion, it should be somewhat close to the original
                if let Some(suggestion) = error.suggestion {
                    // The suggestion should be a valid SQL keyword
                    let valid_keywords =
                        vec!["SELECT", "FROM", "WHERE", "WITH", "INSERT", "UPDATE", "DELETE"];
                    assert!(valid_keywords.contains(&suggestion.as_str()));
                }
            }
        }
    }
}

#[test]
fn an_error_behind_a_good_part_is_placed_behind_it() {
    for bad_token in ["ABCDE", "WHEREVER", "FROMAGE", "ZZZZZZZZZZ"] {
        let sql = format!("SELECT a FROM t {} extra", bad_token);

        if let Err(error) = parse_sql(&sql) {
            // The error should be reported at or after the good part
            assert!(error.column > 1 || error.line > 1);
        }
    }
}
