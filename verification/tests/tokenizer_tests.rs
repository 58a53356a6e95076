// Tests of the tokenizer
use sql_parser_demo::token::{tokenize, Token, TokenKind};

fn kinds(sql: &str) -> Vec<TokenKind> {
    tokenize(sql).iter().map(|t| t.kind).collect()
}

fn texts(sql: &str) -> Vec<String> {
    tokenize(sql).iter().map(|t| t.text.to_string()).collect()
}

#[test]
fn empty_input_gives_only_the_end_mark() {
    let tokens = tokenize("");
    assert_eq!(tokens.len(), 1);
    assert_eq!(tokens[0].kind, TokenKind::Eof);
    assert_eq!(tokens[0].text, "");
    assert_eq!(tokens[0].span, 0..0);
}

#[test]
fn end_mark_sits_at_the_end_of_the_input() {
    let sql = "SELECT 1  ";
    let tokens = tokenize(sql);
    let last = tokens.last().unwrap();
    assert_eq!(last.kind, TokenKind::Eof);
    assert_eq!(last.text, "");
    assert_eq!(last.span, sql.len()..sql.len());
}

#[test]
fn every_keyword_is_recognised_in_any_case() {
    assert_eq!(
        kinds("select From WHERE with Recursive AS union aLL and OR insert UPDATE delete"),
        vec![
            TokenKind::Select,
            TokenKind::From,
            TokenKind::Where,
            TokenKind::With,
            TokenKind::Recursive,
            TokenKind::As,
            TokenKind::Union,
            TokenKind::All,
            TokenKind::And,
            TokenKind::Or,
            TokenKind::Insert,
            TokenKind::Update,
            TokenKind::Delete,
            TokenKind::Eof,
        ]
    );
}

#[test]
fn a_longer_word_is_an_identifier() {
    assert_eq!(
        kinds("selected _from or1 a_b"),
        vec![
            TokenKind::Identifier,
            TokenKind::Identifier,
            TokenKind::Identifier,
            TokenKind::Identifier,
            TokenKind::Eof
        ]
    );
}

#[test]
fn operators_and_delimiters() {
    assert_eq!(
        kinds("+ - * / = != <> < > <= >= ( ) , ;"),
        vec![
            TokenKind::Plus,
            TokenKind::Minus,
            TokenKind::Star,
            TokenKind::Slash,
            TokenKind::Equal,
            TokenKind::NotEqual,
            TokenKind::NotEqual,
            TokenKind::Less,
            TokenKind::Greater,
            TokenKind::LessEqual,
            TokenKind::GreaterEqual,
            TokenKind::LeftParen,
            TokenKind::RightParen,
            TokenKind::Comma,
            TokenKind::Semicolon,
            TokenKind::Eof,
        ]
    );
}

#[test]
fn the_longest_operator_wins() {
    assert_eq!(texts("a<=b<>c>=d"), vec!["a", "<=", "b", "<>", "c", ">=", "d", ""]);
}

#[test]
fn numbers_and_floats() {
    let tokens = tokenize("12 3.5 -7 -0.25 8.");
    let found: Vec<(TokenKind, &str)> = tokens.iter().map(|t| (t.kind, t.text)).collect();
    assert_eq!(
        found,
        vec![
            (TokenKind::Number, "12"),
            (TokenKind::Float, "3.5"),
            (TokenKind::Number, "-7"),
            (TokenKind::Float, "-0.25"),
            (TokenKind::Number, "8"),
            (TokenKind::Eof, ""),
        ]
    );
}

#[test]
fn a_minus_sign_before_a_digit_belongs_to_the_number() {
    assert_eq!(texts("1-2"), vec!["1", "-2", ""]);
    assert_eq!(texts("1 - 2"), vec!["1", "-", "2", ""]);
    assert_eq!(texts("a -b"), vec!["a", "-", "b", ""]);
}

#[test]
fn a_second_dot_ends_a_float() {
    assert_eq!(texts("1.5.3"), vec!["1.5", "3", ""]);
}

#[test]
fn string_literals_keep_their_quotes() {
    let tokens = tokenize("'abc' '' 'it\\'s' 'a b'");
    let found: Vec<(TokenKind, &str)> = tokens.iter().map(|t| (t.kind, t.text)).collect();
    assert_eq!(
        found,
        vec![
            (TokenKind::String, "'abc'"),
            (TokenKind::String, "''"),
            (TokenKind::String, "'it\\'s'"),
            (TokenKind::String, "'a b'"),
            (TokenKind::Eof, ""),
        ]
    );
}

#[test]
fn a_string_literal_may_hold_any_character() {
    let sql = "'héllo wörld' x";
    let tokens = tokenize(sql);
    assert_eq!(tokens[0].kind, TokenKind::String);
    assert_eq!(tokens[0].text, "'héllo wörld'");
    assert_eq!(tokens[1].text, "x");
}

#[test]
fn an_open_string_literal_is_passed_over() {
    assert_eq!(texts("'abc"), vec![""]);
    assert_eq!(texts("a 'abc def\nghi"), vec!["a", ""]);
    assert_eq!(texts("'"), vec![""]);
    assert_eq!(texts("a 'b' 'c"), vec!["a", "'b'", ""]);
    assert_eq!(texts("'abc\\"), vec![""]);
    assert_eq!(texts("'abc\\'"), vec![""]);
}

#[test]
fn a_backslash_before_a_line_feed_breaks_a_string_literal() {
    assert_eq!(texts("'a\\\nb c"), vec!["b", "c", ""]);
    assert_eq!(texts("'a\\\nb'"), vec!["b", ""]);
    assert_eq!(kinds("x 'a\\\n1"), vec![TokenKind::Identifier, TokenKind::Number, TokenKind::Eof]);
}

#[test]
fn comments_and_blanks_give_no_token() {
    assert_eq!(
        texts("SELECT -- all of it\n\t* \r\n FROM\x0ct -- done"),
        vec!["SELECT", "*", "FROM", "t", ""]
    );
}

#[test]
fn a_comment_wins_over_a_negative_number() {
    assert_eq!(texts("1 --5\n2"), vec!["1", "2", ""]);
}

#[test]
fn unrecognised_characters_are_passed_over() {
    assert_eq!(texts("a @ b # c ! d . e"), vec!["a", "b", "c", "d", "e", ""]);
    assert_eq!(texts("é ü 日本 x"), vec!["x", ""]);
    assert_eq!(texts("a!b"), vec!["a", "b", ""]);
}

#[test]
fn spans_give_the_bytes_of_the_text() {
    let sql = "SELECT name, 'é' FROM users -- x\nWHERE a<=-1.5";
    let tokens = tokenize(sql);
    for token in &tokens {
        assert_eq!(&sql[token.span.clone()], token.text);
    }
    let starts: Vec<usize> = tokens.iter().map(|t| t.span.start).collect();
    assert_eq!(starts, vec![0, 7, 11, 13, 18, 23, 34, 40, 41, 43, 47]);
}

#[test]
fn spans_follow_each_other() {
    let sql = "WITH t(n) AS (SELECT 1) SELECT * FROM t";
    let tokens = tokenize(sql);
    for pair in tokens.windows(2) {
        assert!(pair[0].span.start < pair[0].span.end);
        assert!(pair[0].span.end <= pair[1].span.start);
    }
}

#[test]
fn token_new_keeps_its_parts() {
    let token = Token::new("abc", TokenKind::Identifier, 3..6);
    assert_eq!(token.text, "abc");
    assert_eq!(token.kind, TokenKind::Identifier);
    assert_eq!(token.span, 3..6);
    assert_eq!(token.clone(), token);
}

#[test]
fn a_token_is_written_with_its_kind() {
    let tokens = tokenize("SELECT name");
    assert_eq!(tokens[0].to_string(), "Select(SELECT)");
    assert_eq!(tokens[1].to_string(), "Identifier(name)");
    assert_eq!(tokens[2].to_string(), "Eof()");
    assert_eq!(TokenKind::GreaterEqual.name(), "GreaterEqual");
}

#[test]
fn tokenizing_takes_any_input() {
    let inputs = [
        "\0", "'", "\\", "--", "-", "!", "<", "'\\", "'\\\n", "1.", ".5", "-.", "\u{17f}elect",
        "a\u{301}", "\u{1F600}", "''''", "<>=", "!==", "_", "9999999999999999999999",
    ];
    for input in inputs {
        let tokens = tokenize(input);
        assert_eq!(tokens.last().unwrap().kind, TokenKind::Eof);
        for token in &tokens {
            assert_eq!(&input[token.span.clone()], token.text);
        }
    }
}
