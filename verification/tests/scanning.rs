use rlox::Scanner;
use rlox::StdErrErrorHandler;
use rlox::Token;
use rlox::TokenInfo;

fn scan(source: &str) -> Vec<TokenInfo> {
    let handler = StdErrErrorHandler {};
    let mut scanner = Scanner::new(source, &handler);
    scanner.scan_tokens().clone()
}

fn tokens_of(source: &str) -> Vec<Token> {
    scan(source).into_iter().map(|info| info.token).collect()
}

#[test]
fn empty_input_yields_only_eof() {
    let tokens = scan("");
    assert_eq!(tokens.len(), 1);
    assert_eq!(tokens[0].token, Token::EOF);
    assert_eq!(tokens[0].line, 1);
}

#[test]
fn whitespace_only_yields_only_eof() {
    let tokens = scan(" \t\r ");
    assert_eq!(tokens.len(), 1);
    assert_eq!(tokens[0].token, Token::EOF);
    assert_eq!(tokens[0].line, 1);
}

#[test]
fn whitespace_and_newlines_yield_only_eof() {
    let tokens = scan(" \n\t\n \r\n");
    assert_eq!(tokens.len(), 1);
    assert_eq!(tokens[0].token, Token::EOF);
    assert_eq!(tokens[0].line, 4);
}

#[test]
fn eof_is_last_and_only_last() {
    let tokens = tokens_of("var x = 1;");
    assert!(tokens.len() > 1);
    assert_eq!(tokens[tokens.len() - 1], Token::EOF);
    for token in &tokens[..tokens.len() - 1] {
        assert_ne!(*token, Token::EOF);
    }
}

#[test]
fn single_character_punctuation() {
    let tokens = tokens_of("(){},.-+;*/");
    assert_eq!(
        tokens,
        vec![
            Token::LeftParen,
            Token::RightParen,
            Token::LeftBrace,
            Token::RightBrace,
            Token::Comma,
            Token::Dot,
            Token::Minus,
            Token::Plus,
            Token::Semicolon,
            Token::Star,
            Token::Slash,
            Token::EOF,
        ]
    );
}

#[test]
fn bang_equal_is_one_token() {
    let tokens = tokens_of("!=");
    assert_eq!(tokens, vec![Token::BangEqual, Token::EOF]);
}

#[test]
fn two_character_operators_win_over_prefixes() {
    assert_eq!(tokens_of("=="), vec![Token::EqualEqual, Token::EOF]);
    assert_eq!(tokens_of("<="), vec![Token::LessEqual, Token::EOF]);
    assert_eq!(tokens_of(">="), vec![Token::GreaterEqual, Token::EOF]);
    assert_eq!(
        tokens_of("! = < >"),
        vec![Token::Bang, Token::Equal, Token::Less, Token::Greater, Token::EOF]
    );
    assert_eq!(tokens_of("==="), vec![Token::EqualEqual, Token::Equal, Token::EOF]);
}

#[test]
fn line_comment_yields_nothing_and_keeps_newline() {
    let tokens = scan("// comment\n1");
    assert_eq!(tokens.len(), 2);
    assert_eq!(tokens[0].token, Token::Number("1".to_string()));
    assert_eq!(tokens[0].line, 2);
    assert_eq!(tokens[1].token, Token::EOF);
}

#[test]
fn comment_at_end_of_input_yields_nothing() {
    let tokens = tokens_of("// just a comment");
    assert_eq!(tokens, vec![Token::EOF]);
}

#[test]
fn slash_alone_is_division() {
    let tokens = tokens_of("1/2");
    assert_eq!(
        tokens,
        vec![
            Token::Number("1".to_string()),
            Token::Slash,
            Token::Number("2".to_string()),
            Token::EOF,
        ]
    );
}

#[test]
fn string_literal_payload_excludes_quotes() {
    let tokens = scan("\"abc\"");
    assert_eq!(tokens.len(), 2);
    assert_eq!(tokens[0].token, Token::StringValue("abc".to_string()));
    assert_eq!(tokens[0].line, 1);
}

#[test]
fn empty_string_literal() {
    let tokens = tokens_of("\"\"");
    assert_eq!(tokens, vec![Token::StringValue(String::new()), Token::EOF]);
}

#[test]
fn multi_line_string_advances_line_counter() {
    let tokens = scan("\"a\nb\"");
    assert_eq!(tokens.len(), 2);
    assert_eq!(tokens[0].token, Token::StringValue("a\nb".to_string()));
    assert_eq!(tokens[0].line, 2);
    assert_eq!(tokens[1].token, Token::EOF);
    assert_eq!(tokens[1].line, 2);
}

#[test]
fn number_with_fraction() {
    let tokens = tokens_of("3.14");
    assert_eq!(tokens, vec![Token::Number("3.14".to_string()), Token::EOF]);
}

#[test]
fn number_lexeme_parses_as_double() {
    let tokens = tokens_of("3.14 42");
    match &tokens[0] {
        Token::Number(text) => assert_eq!(text.parse::<f64>().unwrap(), 3.14f64),
        other => panic!("expected a number token, got {:?}", other),
    }
    match &tokens[1] {
        Token::Number(text) => assert_eq!(text.parse::<f64>().unwrap(), 42.0f64),
        other => panic!("expected a number token, got {:?}", other),
    }
}

#[test]
fn trailing_dot_is_not_part_of_number() {
    let tokens = tokens_of("3.");
    assert_eq!(tokens, vec![Token::Number("3".to_string()), Token::Dot, Token::EOF]);
}

#[test]
fn dot_without_following_digit_splits_lexemes() {
    let tokens = tokens_of("12.ab");
    assert_eq!(
        tokens,
        vec![
            Token::Number("12".to_string()),
            Token::Dot,
            Token::Identifier("ab".to_string()),
            Token::EOF,
        ]
    );
}

#[test]
fn identifier_swallows_keyword_prefix() {
    let tokens = tokens_of("forever");
    assert_eq!(tokens, vec![Token::Identifier("forever".to_string()), Token::EOF]);
}

#[test]
fn keywords_are_case_sensitive() {
    let tokens = tokens_of("Print");
    assert_eq!(tokens, vec![Token::Identifier("Print".to_string()), Token::EOF]);
}

#[test]
fn all_sixteen_keywords() {
    let source = "and class else false fun for if nil or print return super this true var while";
    let tokens = tokens_of(source);
    assert_eq!(
        tokens,
        vec![
            Token::And,
            Token::Class,
            Token::Else,
            Token::False,
            Token::Fun,
            Token::For,
            Token::If,
            Token::Nil,
            Token::Or,
            Token::Print,
            Token::Return,
            Token::Super,
            Token::This,
            Token::True,
            Token::Var,
            Token::While,
            Token::EOF,
        ]
    );
}

#[test]
fn identifier_may_contain_digits() {
    let tokens = tokens_of("x1y2");
    assert_eq!(tokens, vec![Token::Identifier("x1y2".to_string()), Token::EOF]);
}

#[test]
fn literal_payloads_equal_source_spans() {
    let source = "abc \"xy\"";
    let tokens = tokens_of(source);
    assert_eq!(tokens[0], Token::Identifier(source[0..3].to_string()));
    assert_eq!(tokens[1], Token::StringValue(source[5..7].to_string()));
    assert_eq!(tokens[2], Token::EOF);
}

#[test]
fn line_numbers_follow_newlines() {
    let tokens = scan("(\n)\n");
    assert_eq!(tokens.len(), 3);
    assert_eq!(tokens[0].token, Token::LeftParen);
    assert_eq!(tokens[0].line, 1);
    assert_eq!(tokens[1].token, Token::RightParen);
    assert_eq!(tokens[1].line, 2);
    assert_eq!(tokens[2].token, Token::EOF);
    assert_eq!(tokens[2].line, 3);
}

#[test]
fn mixed_statement() {
    let tokens = tokens_of("var half = 1.5; // note\nprint half != 2;");
    assert_eq!(
        tokens,
        vec![
            Token::Var,
            Token::Identifier("half".to_string()),
            Token::Equal,
            Token::Number("1.5".to_string()),
            Token::Semicolon,
            Token::Print,
            Token::Identifier("half".to_string()),
            Token::BangEqual,
            Token::Number("2".to_string()),
            Token::Semicolon,
            Token::EOF,
        ]
    );
}
