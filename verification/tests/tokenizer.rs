use toopsqlite::vm::parser::{match_keyword, parse_select, parse_stmt, QueryType, Stmt, SyntaxError};
use toopsqlite::vm::tokenizer::{tokenize, tokenize_chars, Token, TokenType};

#[test]
fn test_tokenizer() {
    let input = "input foo, bar;";
    let tokens = tokenize(input);
    assert_eq!(
        vec![
            Token::with_lexeme(TokenType::Ident, "input".to_string()),
            Token::with_lexeme(TokenType::Ident, "foo".to_string()),
            Token::without_lexeme(TokenType::Comma),
            Token::with_lexeme(TokenType::Ident, "bar".to_string()),
            Token::without_lexeme(TokenType::SemiColon),
        ],
        tokens.unwrap()
    );
}

#[test]
fn tokenizer_every_punctuation() {
    let tokens = tokenize(",()=*;").unwrap();
    let kinds: Vec<TokenType> = tokens.iter().map(|t| t.token_type).collect();
    assert_eq!(
        kinds,
        vec![
            TokenType::Comma,
            TokenType::LeftParen,
            TokenType::RightParen,
            TokenType::Equals,
            TokenType::Star,
            TokenType::SemiColon,
        ]
    );
    assert!(tokens.iter().all(|t| t.lexeme.is_none()));
}

#[test]
fn tokenizer_empty_and_spaces() {
    assert_eq!(tokenize("").unwrap(), vec![]);
    assert_eq!(tokenize("    ").unwrap(), vec![]);
}

#[test]
fn tokenizer_rejects_other_characters() {
    assert_eq!(tokenize("select # from t"), Err(SyntaxError));
    assert_eq!(tokenize("a\tb"), Err(SyntaxError));
    assert_eq!(tokenize("_a"), Err(SyntaxError));
}

#[test]
fn tokenizer_identifier_starts_ascii_continues_unicode() {
    // A letter outside ASCII may continue an identifier but not start one.
    let tokens = tokenize("caf\u{e9} x").unwrap();
    assert_eq!(
        tokens,
        vec![
            Token::with_lexeme(TokenType::Ident, "caf\u{e9}".to_string()),
            Token::with_lexeme(TokenType::Ident, "x".to_string()),
        ]
    );
    assert_eq!(tokenize("\u{e9}cole"), Err(SyntaxError));
}

#[test]
fn tokenizer_identifier_ends_at_punctuation() {
    let tokens = tokenize("a1=b2").unwrap();
    assert_eq!(
        tokens,
        vec![
            Token::with_lexeme(TokenType::Ident, "a1".to_string()),
            Token::without_lexeme(TokenType::Equals),
            Token::with_lexeme(TokenType::Ident, "b2".to_string()),
        ]
    );
}

#[test]
fn tokenize_chars_follows_the_given_flags() {
    // With no character allowed to continue, every letter is its own identifier.
    let chars: Vec<char> = "ab".chars().collect();
    let tokens = tokenize_chars(&chars, &vec![false, false]).unwrap();
    assert_eq!(
        tokens,
        vec![
            Token::with_lexeme(TokenType::Ident, "a".to_string()),
            Token::with_lexeme(TokenType::Ident, "b".to_string()),
        ]
    );
    let tokens = tokenize_chars(&chars, &vec![true, true]).unwrap();
    assert_eq!(tokens, vec![Token::with_lexeme(TokenType::Ident, "ab".to_string())]);
}

#[test]
fn get_lexeme_gives_the_text() {
    let token = Token::with_lexeme(TokenType::Ident, "users".to_string());
    assert_eq!(token.get_lexeme(), "users");
}

#[test]
fn keywords_are_lower_case_only() {
    assert_eq!(match_keyword("select"), Some(QueryType::Select));
    assert_eq!(match_keyword("insert"), Some(QueryType::Insert));
    assert_eq!(match_keyword("create"), Some(QueryType::Create));
    assert_eq!(match_keyword("update"), Some(QueryType::Update));
    assert_eq!(match_keyword("SELECT"), None);
    assert_eq!(match_keyword("selec"), None);
    assert_eq!(match_keyword(""), None);
}

#[test]
fn parse_select_from_table() {
    let tokens = tokenize("select * from users;").unwrap();
    let stmt = parse_stmt(&tokens).unwrap();
    assert_eq!(stmt.query_type, QueryType::Select);
    assert_eq!(stmt.table, "users");
}

#[test]
fn parse_select_passes_over_the_fields() {
    let tokens = tokenize("select a, b, (c) from t1 from t2").unwrap();
    let stmt = parse_stmt(&tokens).unwrap();
    assert_eq!(stmt.query_type, QueryType::Select);
    assert_eq!(stmt.table, "t1");
}

#[test]
fn parse_errors() {
    assert!(matches!(parse_stmt(&[]), Err(SyntaxError)));
    // Only select statements are parsed.
    assert!(matches!(parse_stmt(&tokenize("insert a from t").unwrap()), Err(SyntaxError)));
    assert!(matches!(parse_stmt(&tokenize("create a from t").unwrap()), Err(SyntaxError)));
    assert!(matches!(parse_stmt(&tokenize("update a from t").unwrap()), Err(SyntaxError)));
    assert!(matches!(parse_stmt(&tokenize("delete a from t").unwrap()), Err(SyntaxError)));
    // The first token is no identifier.
    assert!(matches!(parse_stmt(&tokenize("* from t").unwrap()), Err(SyntaxError)));
    // No `from`, no table, or something else where the table should stand.
    assert!(matches!(parse_stmt(&tokenize("select a b").unwrap()), Err(SyntaxError)));
    assert!(matches!(parse_stmt(&tokenize("select a from").unwrap()), Err(SyntaxError)));
    assert!(matches!(parse_stmt(&tokenize("select a from *").unwrap()), Err(SyntaxError)));
}

#[test]
fn parse_select_starts_where_told() {
    let tokens = tokenize("from a from b").unwrap();
    assert_eq!(parse_select(&tokens, 0).unwrap().table, "a");
    assert_eq!(parse_select(&tokens, 1).unwrap().table, "b");
    assert!(matches!(parse_select(&tokens, 3), Err(SyntaxError)));
    assert!(matches!(parse_select(&tokens, 4), Err(SyntaxError)));
}

#[test]
fn stmt_builders() {
    let stmt = Stmt::new(QueryType::Create);
    assert_eq!(stmt.query_type, QueryType::Create);
    assert_eq!(stmt.table, "foo");
    let stmt = Stmt::with_table(QueryType::Update, "t".to_string());
    assert_eq!(stmt.query_type, QueryType::Update);
    assert_eq!(stmt.table, "t");
    assert_eq!(SyntaxError.message(), "Syntax error");
}
