use rbasic::lexer::{
    continues_word, is_valid_identifier, tokenize_line, LexError, LineNumber, TokenAndPos,
};
use rbasic::token::Token;

#[test]
fn tokenize_no_line_number() {
    let line_of_code = tokenize_line("REM Invalid Line");
    assert!(line_of_code.is_err());
}

#[test]
fn tokenize_bad_line_number() {
    let line_of_code = tokenize_line("10B REM Invalid Line");
    assert!(line_of_code.is_err());
}

#[test]
fn tokenize_line_with_goto() {
    let line_of_code = tokenize_line("10 GOTO 100").unwrap();
    assert_eq!(LineNumber(10), line_of_code.line_number);
    let tokens: Vec<TokenAndPos> =
        vec![TokenAndPos(3, Token::Goto), TokenAndPos(8, Token::Number(100))];
    assert_eq!(tokens, line_of_code.tokens)
}

#[test]
fn tokenize_line_with_string() {
    let line_of_code = tokenize_line("10 PRINT \"FOO BAR BAZ\"").unwrap();
    assert_eq!(LineNumber(10), line_of_code.line_number);
    let tokens: Vec<TokenAndPos> = vec![
        TokenAndPos(3, Token::Print),
        TokenAndPos(9, Token::BString("FOO BAR BAZ".to_string())),
    ];
    assert_eq!(tokens, line_of_code.tokens)
}

#[test]
fn tokenize_line_with_identifier() {
    let line_of_code = tokenize_line("10 INPUT A").unwrap();
    assert_eq!(LineNumber(10), line_of_code.line_number);
    let tokens: Vec<TokenAndPos> =
        vec![TokenAndPos(3, Token::Input), TokenAndPos(9, Token::Variable("A".to_string()))];
    assert_eq!(tokens, line_of_code.tokens)
}

#[test]
fn tokenize_line_with_bad_identifier() {
    let line_of_code = tokenize_line("10 INPUT `A");
    assert!(line_of_code.is_err());
}

#[test]
fn tokenize_line_with_comment() {
    let line_of_code = tokenize_line("5  REM THIS IS A COMMENT 123").unwrap();
    assert_eq!(LineNumber(5), line_of_code.line_number);
    let tokens: Vec<TokenAndPos> = vec![
        TokenAndPos(3, Token::Rem),
        TokenAndPos(7, Token::Comment("THIS IS A COMMENT 123".to_string())),
    ];
    assert_eq!(tokens, line_of_code.tokens)
}

#[test]
fn tokenize_expression_with_parentheses() {
    let line = tokenize_line("20 LET B = (A - 2) * -3").unwrap();
    let tokens: Vec<TokenAndPos> = vec![
        TokenAndPos(3, Token::Let),
        TokenAndPos(7, Token::Variable("B".to_string())),
        TokenAndPos(9, Token::Equals),
        TokenAndPos(11, Token::LParen),
        TokenAndPos(12, Token::Variable("A".to_string())),
        TokenAndPos(14, Token::Minus),
        TokenAndPos(16, Token::Number(2)),
        TokenAndPos(17, Token::RParen),
        TokenAndPos(19, Token::Multiply),
        TokenAndPos(21, Token::UMinus),
        TokenAndPos(22, Token::Number(3)),
    ];
    assert_eq!(tokens, line.tokens);
}

#[test]
fn tokenize_unterminated_string() {
    assert_eq!(
        tokenize_line("10 PRINT \"FOO"),
        Err(LexError::UnterminatedString { pos: 9 })
    );
}

#[test]
fn tokenize_empty_line() {
    let line = tokenize_line("").unwrap();
    assert_eq!(line.line_number, LineNumber(0));
    assert!(line.tokens.is_empty());
}

#[test]
fn tokenize_line_number_alone() {
    let line = tokenize_line("4294967295").unwrap();
    assert_eq!(line.line_number, LineNumber(u32::MAX));
    assert!(line.tokens.is_empty());
    assert_eq!(tokenize_line("4294967296"), Err(LexError::MissingLineNumber));
    assert_eq!(tokenize_line(" 10 PRINT 1"), Err(LexError::MissingLineNumber));
    assert_eq!(tokenize_line("+10 PRINT 1"), Err(LexError::MissingLineNumber));
    assert_eq!(tokenize_line("REM no line number"), Err(LexError::MissingLineNumber));
}

#[test]
fn tokenize_minus_after_a_value_is_binary() {
    let tokens = tokenize_line("1 A - 1").unwrap().tokens;
    assert_eq!(tokens[1], TokenAndPos(4, Token::Minus));
    let tokens = tokenize_line("1 \"a\" - 1").unwrap().tokens;
    assert_eq!(tokens[1], TokenAndPos(6, Token::Minus));
    let tokens = tokenize_line("1 2 -1").unwrap().tokens;
    assert_eq!(tokens[1], TokenAndPos(4, Token::Minus));
    let tokens = tokenize_line("1 - 1").unwrap().tokens;
    assert_eq!(tokens[0], TokenAndPos(2, Token::UMinus));
    let tokens = tokenize_line("1 (1) - 1").unwrap().tokens;
    assert_eq!(tokens[3], TokenAndPos(6, Token::UMinus));
    let tokens = tokenize_line("1 2 * -1").unwrap().tokens;
    assert_eq!(tokens[2], TokenAndPos(6, Token::UMinus));
}

#[test]
fn tokenize_operators() {
    let tokens = tokenize_line("1 = < > <= >= <> * / + !").unwrap().tokens;
    let expected = vec![
        TokenAndPos(2, Token::Equals),
        TokenAndPos(4, Token::LessThan),
        TokenAndPos(6, Token::GreaterThan),
        TokenAndPos(8, Token::LessThanEqual),
        TokenAndPos(11, Token::GreaterThanEqual),
        TokenAndPos(14, Token::NotEqual),
        TokenAndPos(17, Token::Multiply),
        TokenAndPos(19, Token::Divide),
        TokenAndPos(21, Token::Plus),
        TokenAndPos(23, Token::Bang),
    ];
    assert_eq!(tokens, expected);
}

#[test]
fn tokenize_word_ends_before_closing_parenthesis() {
    let tokens = tokenize_line("1 (A)").unwrap().tokens;
    let expected = vec![
        TokenAndPos(2, Token::LParen),
        TokenAndPos(3, Token::Variable("A".to_string())),
        TokenAndPos(4, Token::RParen),
    ];
    assert_eq!(tokens, expected);
}

#[test]
fn tokenize_unknown_words() {
    assert_eq!(
        tokenize_line("10 LET A = 3-1"),
        Err(LexError::UnimplementedToken { pos: 11, word: "3-1".to_string() })
    );
    assert_eq!(
        tokenize_line("10 PRINT 2147483648"),
        Err(LexError::UnimplementedToken { pos: 9, word: "2147483648".to_string() })
    );
    assert_eq!(
        tokenize_line("10 PRINT +5"),
        Err(LexError::UnimplementedToken { pos: 9, word: "+5".to_string() })
    );
    assert_eq!(
        tokenize_line("10 PRINT _a"),
        Err(LexError::UnimplementedToken { pos: 9, word: "_a".to_string() })
    );
    assert_eq!(
        tokenize_line("10 PRINT A("),
        Err(LexError::UnimplementedToken { pos: 9, word: "A(".to_string() })
    );
}

#[test]
fn tokenize_numbers_and_names() {
    let tokens = tokenize_line("10 LET a_1 = 2147483647").unwrap().tokens;
    let expected = vec![
        TokenAndPos(3, Token::Let),
        TokenAndPos(7, Token::Variable("a_1".to_string())),
        TokenAndPos(11, Token::Equals),
        TokenAndPos(13, Token::Number(2147483647)),
    ];
    assert_eq!(tokens, expected);
}

#[test]
fn tokenize_comment_edge_cases() {
    let tokens = tokenize_line("10 REM").unwrap().tokens;
    assert_eq!(
        tokens,
        vec![TokenAndPos(3, Token::Rem), TokenAndPos(7, Token::Comment(String::new()))]
    );
    let tokens = tokenize_line("10 REM  two spaces ").unwrap().tokens;
    assert_eq!(
        tokens,
        vec![
            TokenAndPos(3, Token::Rem),
            TokenAndPos(7, Token::Comment(" two spaces ".to_string()))
        ]
    );
    let tokens = tokenize_line("10 REM)x").unwrap().tokens;
    assert_eq!(
        tokens,
        vec![TokenAndPos(3, Token::Rem), TokenAndPos(7, Token::Comment(")x".to_string()))]
    );
    let tokens = tokenize_line("10 REM \"PRINT 1").unwrap().tokens;
    assert_eq!(
        tokens,
        vec![
            TokenAndPos(3, Token::Rem),
            TokenAndPos(7, Token::Comment("\"PRINT 1".to_string()))
        ]
    );
}

#[test]
fn tokenize_offsets_count_bytes() {
    let tokens = tokenize_line("10 PRINT \"é\" + A").unwrap().tokens;
    let expected = vec![
        TokenAndPos(3, Token::Print),
        TokenAndPos(9, Token::BString("é".to_string())),
        TokenAndPos(14, Token::Plus),
        TokenAndPos(16, Token::Variable("A".to_string())),
    ];
    assert_eq!(tokens, expected);
    let tokens = tokenize_line("10\u{3000}PRINT\u{a0}1").unwrap().tokens;
    assert_eq!(
        tokens,
        vec![TokenAndPos(5, Token::Print), TokenAndPos(12, Token::Number(1))]
    );
}

#[test]
fn tokenize_empty_string_literal() {
    let tokens = tokenize_line("10 PRINT \"\"").unwrap().tokens;
    assert_eq!(
        tokens,
        vec![TokenAndPos(3, Token::Print), TokenAndPos(9, Token::BString(String::new()))]
    );
}

#[test]
fn tokenize_twice_gives_equal_lines() {
    for text in ["10 GOTO 100", "20 LET A = (B + 1) * -2", "30 REM x", "bad", "40 PRINT \"x"] {
        assert_eq!(tokenize_line(text), tokenize_line(text));
    }
}

#[test]
fn lex_error_messages() {
    assert_eq!(LexError::MissingLineNumber.message(), "Line must start with a line number");
    assert_eq!(
        LexError::UnterminatedString { pos: 9 }.message(),
        "Unterminated string at 9"
    );
    assert_eq!(
        tokenize_line("10 INPUT `A").unwrap_err().message(),
        "Unimplemented token at 9:\t`A"
    );
    assert_eq!(LexError::LineTooLong.message(), "Line is too long");
}

#[test]
fn line_of_code_clone_is_equal() {
    let line = tokenize_line("20 LET A = \"x\" + B").unwrap();
    assert_eq!(line.clone(), line);
}

#[test]
fn names_are_letters_digits_and_underscores() {
    assert!(is_valid_identifier("a"));
    assert!(is_valid_identifier("Zz_09"));
    assert!(!is_valid_identifier(""));
    assert!(!is_valid_identifier("_a"));
    assert!(!is_valid_identifier("1a"));
    assert!(!is_valid_identifier("a-b"));
    assert!(!is_valid_identifier("é"));
    assert!(!is_valid_identifier("aé"));
    assert!(continues_word('a'));
    assert!(continues_word('('));
    assert!(!continues_word(')'));
    assert!(!continues_word(' '));
    assert!(!continues_word('\u{2003}'));
}
