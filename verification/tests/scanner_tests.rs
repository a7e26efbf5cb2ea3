use f90nmlrs::scanner::{Scanner, TokenType};

#[test]
fn test_scan_simple_namelist() {
    let input = "&data_nml x=1 y=2.0 z=.true. /";
    let scanner = Scanner::new(input);
    let tokens = scanner.scan_all().unwrap();

    let expected_types = vec![
        TokenType::GroupStart,
        TokenType::Identifier,
        TokenType::Identifier,
        TokenType::Assign,
        TokenType::Integer,
        TokenType::Identifier,
        TokenType::Assign,
        TokenType::Real,
        TokenType::Identifier,
        TokenType::Assign,
        TokenType::Logical,
        TokenType::GroupEnd,
        TokenType::Eof,
    ];

    assert_eq!(tokens.len(), expected_types.len());
    for (token, expected_type) in tokens.iter().zip(expected_types.iter()) {
        assert_eq!(token.token_type, *expected_type);
    }
}

#[test]
fn test_scan_with_whitespace_preservation() {
    let input = "&data_nml  ! comment\n    x = 1\n/";

    let scanner = Scanner::new(input);
    let tokens_filtered = scanner.scan_all().unwrap();
    let tokens_all = scanner.scan_all_including_whitespace().unwrap();

    assert!(tokens_all.len() > tokens_filtered.len());

    let has_whitespace = tokens_all.iter().any(|t| t.token_type == TokenType::Whitespace);
    let has_comment = tokens_all.iter().any(|t| t.token_type == TokenType::Comment);

    assert!(has_whitespace, "Should preserve whitespace tokens");
    assert!(has_comment, "Should preserve comment tokens");

    let filtered_has_whitespace =
        tokens_filtered.iter().any(|t| t.token_type == TokenType::Whitespace);

    assert!(!filtered_has_whitespace, "Filtered tokens should not contain whitespace");
}

#[test]
fn test_scan_numbers() {
    let input = "42 3.14 1.23e4 1.23d-5 2_real64";
    let scanner = Scanner::new(input);
    let tokens = scanner.scan_all().unwrap();

    assert_eq!(tokens[0].token_type, TokenType::Integer);
    assert_eq!(tokens[0].lexeme, "42");

    assert_eq!(tokens[1].token_type, TokenType::Real);
    assert_eq!(tokens[1].lexeme, "3.14");

    assert_eq!(tokens[2].token_type, TokenType::Real);
    assert_eq!(tokens[2].lexeme, "1.23e4");

    assert_eq!(tokens[3].token_type, TokenType::Real);
    assert_eq!(tokens[3].lexeme, "1.23d-5");

    assert_eq!(tokens[4].token_type, TokenType::Real);
    assert_eq!(tokens[4].lexeme, "2_real64");
}

#[test]
fn test_scan_strings() {
    let input = r#"'hello' "world" 'don''t'"#;
    let scanner = Scanner::new(input);
    let tokens = scanner.scan_all().unwrap();

    assert_eq!(tokens[0].token_type, TokenType::String);
    assert_eq!(tokens[0].lexeme, "'hello'");

    assert_eq!(tokens[1].token_type, TokenType::String);
    assert_eq!(tokens[1].lexeme, "\"world\"");

    assert_eq!(tokens[2].token_type, TokenType::String);
    assert_eq!(tokens[2].lexeme, "'don''t'");
}

#[test]
fn test_scan_logicals() {
    let input = ".true. .false. .T. .F. true false";
    let scanner = Scanner::new(input);
    let tokens = scanner.scan_all().unwrap();

    for i in 0..6 {
        assert_eq!(tokens[i].token_type, TokenType::Logical);
    }
}

#[test]
fn test_scan_arrays() {
    let input = "arr(1:10) = 1, 2, 3";
    let scanner = Scanner::new(input);
    let tokens = scanner.scan_all().unwrap();

    let expected_types = vec![
        TokenType::Identifier,
        TokenType::LeftParen,
        TokenType::Integer,
        TokenType::Colon,
        TokenType::Integer,
        TokenType::RightParen,
        TokenType::Assign,
        TokenType::Integer,
        TokenType::Comma,
        TokenType::Integer,
        TokenType::Comma,
        TokenType::Integer,
        TokenType::Eof,
    ];

    for (token, expected_type) in tokens.iter().zip(expected_types.iter()) {
        assert_eq!(token.token_type, *expected_type);
    }
}

#[test]
fn test_scan_comments() {
    let input = "x=1 ! This is a comment\ny=2";
    let scanner = Scanner::new(input);
    let tokens = scanner.scan_all_including_whitespace().unwrap();

    let comment_token = tokens
        .iter()
        .find(|t| t.token_type == TokenType::Comment)
        .expect("Should find comment token");
    assert_eq!(comment_token.lexeme, "! This is a comment");
}

#[test]
fn test_line_column_tracking() {
    let input = "x=1\ny=2";
    let scanner = Scanner::new(input);
    let tokens = scanner.scan_all().unwrap();

    assert_eq!(tokens[0].line, 1);
    assert_eq!(tokens[0].column, 1);

    let y_token = tokens
        .iter()
        .find(|t| t.token_type == TokenType::Identifier && t.lexeme == "y")
        .expect("Should find y token");
    assert_eq!(y_token.line, 2);
    assert_eq!(y_token.column, 1);
}

#[test]
fn debug_scanner_preserves_indentation() -> Result<(), f90nmlrs::F90nmlError> {
    let input = "&data_nml  ! group comment\n    x = 1,  ! inline comment\n    y = 2.0\n/";

    let scanner = Scanner::new(input);
    let tokens = scanner.scan_all_including_whitespace()?;

    let has_comment = tokens.iter().any(|t| t.lexeme.contains("! group comment"));
    let has_inline_comment = tokens.iter().any(|t| t.lexeme.contains("! inline comment"));
    let has_indent = tokens.iter().any(|t| t.lexeme.contains("    "));

    assert!(has_comment, "Should preserve group comment");
    assert!(has_inline_comment, "Should preserve inline comment");
    assert!(has_indent, "Should preserve indentation");

    Ok(())
}

#[test]
fn test_scan_partitions_text() {
    let input = "&g  a = 1, ! note\n  b = 'x y'\n/ trailing";
    let scanner = Scanner::new(input);
    let tokens = scanner.scan_all_including_whitespace().unwrap();
    let mut rebuilt = String::new();
    for t in &tokens {
        rebuilt.push_str(&t.lexeme);
    }
    assert_eq!(rebuilt, input);
}

#[test]
fn test_unterminated_string_is_error() {
    let input = "x = 'oops\ny = 2";
    let scanner = Scanner::new(input);
    assert!(scanner.scan_all().is_err());
}
