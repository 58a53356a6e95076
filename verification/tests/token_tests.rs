use sql_parser_demo::token::{tokenize, TokenKind};

#[test]
fn test_zero_copy() {
    let sql = "SELECT * FROM users";
    let tokens = tokenize(sql);

    // Verify tokens point into original string
    for token in &tokens {
        if !token.text.is_empty() {
            let token_ptr = token.text.as_ptr();
            let sql_range = sql.as_bytes().as_ptr_range();

            assert!(
                token_ptr >= sql_range.start && token_ptr < sql_range.end,
                "Token should reference original input"
            );
        }
    }
}

#[test]
fn test_tokenize_basic() {
    let sql = "SELECT name FROM users WHERE age > 18";
    let tokens = tokenize(sql);

    assert_eq!(tokens[0].kind, TokenKind::Select);
    assert_eq!(tokens[1].kind, TokenKind::Identifier);
    assert_eq!(tokens[1].text, "name");
    assert_eq!(tokens[2].kind, TokenKind::From);
}
