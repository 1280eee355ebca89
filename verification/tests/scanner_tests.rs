use rox::errors::Error;
use rox::scanner::Scanner;
use rox::token::{Decimal, Literal, Token};
use rox::token_type::TokenType;

fn scan(source: &str) -> (Vec<Token>, Vec<Error>) {
    let mut scanner = Scanner::new(source);
    scanner.scan_tokens();
    scanner.into_output()
}

fn kinds(tokens: &[Token]) -> Vec<TokenType> {
    tokens.iter().map(|t| t.token_type).collect()
}

fn lexemes(tokens: &[Token]) -> Vec<String> {
    tokens.iter().map(|t| t.lexeme.clone()).collect()
}

fn lines(tokens: &[Token]) -> Vec<usize> {
    tokens.iter().map(|t| t.line).collect()
}

fn number(digits: &[u8], scale: usize) -> Option<Literal> {
    Some(Literal::Number(Decimal { digits: digits.to_vec(), scale }))
}

fn decimal_value(literal: &Option<Literal>) -> f64 {
    match literal {
        Some(Literal::Number(decimal)) => {
            let mantissa = decimal.mantissa().expect("mantissa fits") as f64;
            mantissa / 10f64.powi(decimal.scale as i32)
        }
        other => panic!("no number literal: {:?}", other),
    }
}

#[test]
fn empty_source_gives_nothing() {
    let (tokens, errors) = scan("");
    assert!(tokens.is_empty());
    assert!(errors.is_empty());
}

#[test]
fn whitespace_gives_nothing() {
    let (tokens, errors) = scan(" \r\t\n \n");
    assert!(tokens.is_empty());
    assert!(errors.is_empty());
}

#[test]
fn each_punctuation_mark_is_one_token() {
    let cases = [
        ("(", TokenType::LeftParen),
        (")", TokenType::RightParen),
        ("{", TokenType::LeftBrace),
        ("}", TokenType::RightBrace),
        (";", TokenType::Semicolon),
        (",", TokenType::Comma),
        (".", TokenType::Dot),
        ("+", TokenType::Plus),
        ("-", TokenType::Minus),
        ("*", TokenType::Star),
    ];
    for (source, kind) in cases {
        let (tokens, errors) = scan(source);
        assert_eq!(tokens.len(), 1, "{}", source);
        assert_eq!(tokens[0].token_type, kind);
        assert_eq!(tokens[0].lexeme, source);
        assert_eq!(tokens[0].literal, None);
        assert_eq!(tokens[0].line, 1);
        assert!(errors.is_empty());
    }
}

#[test]
fn punctuation_in_a_row() {
    let (tokens, errors) = scan("(){};,.+-*");
    assert_eq!(
        kinds(&tokens),
        vec![
            TokenType::LeftParen,
            TokenType::RightParen,
            TokenType::LeftBrace,
            TokenType::RightBrace,
            TokenType::Semicolon,
            TokenType::Comma,
            TokenType::Dot,
            TokenType::Plus,
            TokenType::Minus,
            TokenType::Star,
        ]
    );
    assert!(errors.is_empty());
}

#[test]
fn compound_operators_are_one_token() {
    let cases = [
        ("!=", TokenType::BangEqual),
        ("==", TokenType::EqualEqual),
        ("<=", TokenType::LessEqual),
        (">=", TokenType::GreaterEqual),
    ];
    for (source, kind) in cases {
        let (tokens, errors) = scan(source);
        assert_eq!(tokens.len(), 1, "{}", source);
        assert_eq!(tokens[0].token_type, kind);
        assert_eq!(tokens[0].lexeme, source);
        assert_eq!(tokens[0].literal, None);
        assert!(errors.is_empty());
    }
}

#[test]
fn simple_operators_stop_before_another_character() {
    let cases = [
        ("!", TokenType::Bang),
        ("=", TokenType::Equal),
        ("<", TokenType::Less),
        (">", TokenType::Greater),
    ];
    for (operator, kind) in cases {
        let source = format!("{}a", operator);
        let (tokens, errors) = scan(&source);
        assert_eq!(kinds(&tokens), vec![kind, TokenType::Identifier]);
        assert_eq!(lexemes(&tokens), vec![operator.to_string(), "a".to_string()]);
        assert!(errors.is_empty());

        let (alone, _) = scan(operator);
        assert_eq!(kinds(&alone), vec![kind]);

        let source = format!("{}(", operator);
        let (tokens, _) = scan(&source);
        assert_eq!(kinds(&tokens), vec![kind, TokenType::LeftParen]);
    }
}

#[test]
fn operator_runs_pair_from_the_left() {
    let (tokens, _) = scan("===");
    assert_eq!(kinds(&tokens), vec![TokenType::EqualEqual, TokenType::Equal]);
    let (tokens, _) = scan("!==");
    assert_eq!(kinds(&tokens), vec![TokenType::BangEqual, TokenType::Equal]);
    let (tokens, _) = scan("<>=");
    assert_eq!(kinds(&tokens), vec![TokenType::Less, TokenType::GreaterEqual]);
}

#[test]
fn string_literal() {
    let (tokens, errors) = scan("\"hello\"");
    assert_eq!(tokens.len(), 1);
    assert_eq!(tokens[0].token_type, TokenType::String);
    assert_eq!(tokens[0].lexeme, "\"hello\"");
    assert_eq!(tokens[0].literal, Some(Literal::String("hello".to_string())));
    assert_eq!(tokens[0].line, 1);
    assert!(errors.is_empty());
}

#[test]
fn empty_string_literal() {
    let (tokens, errors) = scan("\"\"");
    assert_eq!(tokens.len(), 1);
    assert_eq!(tokens[0].token_type, TokenType::String);
    assert_eq!(tokens[0].literal, Some(Literal::String(String::new())));
    assert!(errors.is_empty());
}

#[test]
fn string_keeps_escapes_raw() {
    let (tokens, errors) = scan("\"a\\nb\"");
    assert_eq!(tokens.len(), 1);
    assert_eq!(tokens[0].literal, Some(Literal::String("a\\nb".to_string())));
    assert!(errors.is_empty());
}

#[test]
fn unterminated_string() {
    let (tokens, errors) = scan("\"unterminated");
    assert_eq!(tokens.len(), 1);
    assert_eq!(tokens[0].token_type, TokenType::Invalid);
    assert_eq!(tokens[0].lexeme, "\"unterminated");
    assert_eq!(tokens[0].literal, None);
    assert_eq!(errors, vec![Error::new(1, "Unterminated String")]);
}

#[test]
fn unterminated_string_is_reported_where_it_began() {
    let (tokens, errors) = scan("a\n\"x\ny\n");
    assert_eq!(kinds(&tokens), vec![TokenType::Identifier, TokenType::Invalid]);
    assert_eq!(lines(&tokens), vec![1, 2]);
    assert_eq!(tokens[1].lexeme, "\"x\ny\n");
    assert_eq!(errors, vec![Error::new(2, "Unterminated String")]);
}

#[test]
fn whole_number() {
    let (tokens, errors) = scan("123");
    assert_eq!(tokens.len(), 1);
    assert_eq!(tokens[0].token_type, TokenType::Number);
    assert_eq!(tokens[0].lexeme, "123");
    assert_eq!(tokens[0].literal, number(&[1, 2, 3], 0));
    assert_eq!(decimal_value(&tokens[0].literal), 123.0);
    assert!(errors.is_empty());
}

#[test]
fn number_with_fraction() {
    let (tokens, errors) = scan("12.5");
    assert_eq!(tokens.len(), 1);
    assert_eq!(tokens[0].token_type, TokenType::Number);
    assert_eq!(tokens[0].lexeme, "12.5");
    assert_eq!(tokens[0].literal, number(&[1, 2, 5], 1));
    assert_eq!(decimal_value(&tokens[0].literal), 12.5);
    assert!(errors.is_empty());
}

#[test]
fn number_before_a_bare_point() {
    let (tokens, errors) = scan("12.");
    assert_eq!(kinds(&tokens), vec![TokenType::Number, TokenType::Dot]);
    assert_eq!(lexemes(&tokens), vec!["12".to_string(), ".".to_string()]);
    assert_eq!(tokens[0].literal, number(&[1, 2], 0));
    assert_eq!(decimal_value(&tokens[0].literal), 12.0);
    assert_eq!(tokens[1].literal, None);
    assert!(errors.is_empty());
}

#[test]
fn point_before_a_number() {
    let (tokens, _) = scan(".5");
    assert_eq!(kinds(&tokens), vec![TokenType::Dot, TokenType::Number]);
    assert_eq!(tokens[1].literal, number(&[5], 0));
}

#[test]
fn number_takes_one_fraction_only() {
    let (tokens, _) = scan("1.2.3");
    assert_eq!(
        kinds(&tokens),
        vec![TokenType::Number, TokenType::Dot, TokenType::Number]
    );
    assert_eq!(lexemes(&tokens), vec!["1.2".to_string(), ".".to_string(), "3".to_string()]);
    assert_eq!(tokens[0].literal, number(&[1, 2], 1));
}

#[test]
fn number_point_then_word() {
    let (tokens, _) = scan("7.abs");
    assert_eq!(
        kinds(&tokens),
        vec![TokenType::Number, TokenType::Dot, TokenType::Identifier]
    );
}

#[test]
fn number_keeps_leading_and_trailing_zeros() {
    let (tokens, _) = scan("007.50");
    assert_eq!(tokens.len(), 1);
    assert_eq!(tokens[0].literal, number(&[0, 0, 7, 5, 0], 2));
    assert_eq!(decimal_value(&tokens[0].literal), 7.5);
}

#[test]
fn long_number_keeps_every_digit() {
    let source = "123456789012345678901234567890";
    let (tokens, errors) = scan(source);
    assert_eq!(tokens.len(), 1);
    assert_eq!(tokens[0].lexeme, source);
    match &tokens[0].literal {
        Some(Literal::Number(decimal)) => {
            assert_eq!(decimal.digits.len(), 30);
            assert_eq!(decimal.scale, 0);
            assert_eq!(decimal.mantissa(), None);
        }
        other => panic!("no number literal: {:?}", other),
    }
    assert!(errors.is_empty());
}

#[test]
fn mantissa_at_the_limit() {
    let largest = Decimal {
        digits: vec![1, 8, 4, 4, 6, 7, 4, 4, 0, 7, 3, 7, 0, 9, 5, 5, 1, 6, 1, 5],
        scale: 0,
    };
    assert_eq!(largest.mantissa(), Some(u64::MAX));
    let beyond = Decimal {
        digits: vec![1, 8, 4, 4, 6, 7, 4, 4, 0, 7, 3, 7, 0, 9, 5, 5, 1, 6, 1, 6],
        scale: 0,
    };
    assert_eq!(beyond.mantissa(), None);
    let nothing = Decimal { digits: vec![], scale: 0 };
    assert_eq!(nothing.mantissa(), Some(0));
    let padded = Decimal { digits: vec![0, 0, 0, 4, 2], scale: 1 };
    assert_eq!(padded.mantissa(), Some(42));
}

#[test]
fn reserved_word() {
    let (tokens, errors) = scan("while");
    assert_eq!(tokens.len(), 1);
    assert_eq!(tokens[0].token_type, TokenType::While);
    assert_eq!(tokens[0].lexeme, "while");
    assert_eq!(tokens[0].literal, None);
    assert!(errors.is_empty());
}

#[test]
fn reserved_word_with_a_tail_is_an_identifier() {
    let (tokens, errors) = scan("while1");
    assert_eq!(tokens.len(), 1);
    assert_eq!(tokens[0].token_type, TokenType::Identifier);
    assert_eq!(tokens[0].lexeme, "while1");
    assert_eq!(tokens[0].literal, None);
    assert!(errors.is_empty());
}

#[test]
fn every_reserved_word() {
    let cases = [
        ("and", TokenType::And),
        ("class", TokenType::Class),
        ("else", TokenType::Else),
        ("false", TokenType::False),
        ("for", TokenType::For),
        ("fun", TokenType::Fun),
        ("nil", TokenType::Nil),
        ("if", TokenType::If),
        ("or", TokenType::Or),
        ("print", TokenType::Print),
        ("return", TokenType::Return),
        ("super", TokenType::Super),
        ("this", TokenType::This),
        ("true", TokenType::True),
        ("var", TokenType::Var),
        ("while", TokenType::While),
    ];
    for (word, kind) in cases {
        let (tokens, errors) = scan(word);
        assert_eq!(kinds(&tokens), vec![kind], "{}", word);
        assert_eq!(tokens[0].lexeme, word);
        assert_eq!(tokens[0].literal, None);
        assert!(errors.is_empty());

        let longer = format!("{}_", word);
        let (tokens, _) = scan(&longer);
        assert_eq!(kinds(&tokens), vec![TokenType::Identifier], "{}", longer);
        assert_eq!(tokens[0].lexeme, longer);
    }
}

#[test]
fn reserved_words_are_case_sensitive() {
    let (tokens, _) = scan("While IF nil Nil");
    assert_eq!(
        kinds(&tokens),
        vec![
            TokenType::Identifier,
            TokenType::Identifier,
            TokenType::Nil,
            TokenType::Identifier,
        ]
    );
}

#[test]
fn identifiers() {
    let (tokens, errors) = scan("_a1 b_2 C3__");
    assert_eq!(
        kinds(&tokens),
        vec![TokenType::Identifier, TokenType::Identifier, TokenType::Identifier]
    );
    assert_eq!(
        lexemes(&tokens),
        vec!["_a1".to_string(), "b_2".to_string(), "C3__".to_string()]
    );
    assert!(errors.is_empty());
}

#[test]
fn digits_then_letters_are_two_tokens() {
    let (tokens, _) = scan("12ab");
    assert_eq!(kinds(&tokens), vec![TokenType::Number, TokenType::Identifier]);
    assert_eq!(lexemes(&tokens), vec!["12".to_string(), "ab".to_string()]);
}

#[test]
fn slash_alone() {
    let (tokens, errors) = scan("a / b");
    assert_eq!(
        kinds(&tokens),
        vec![TokenType::Identifier, TokenType::Slash, TokenType::Identifier]
    );
    assert_eq!(tokens[1].lexeme, "/");
    assert!(errors.is_empty());
}

#[test]
fn line_comment_runs_to_the_newline() {
    let (tokens, errors) = scan("a // b c \"\nd // e");
    assert_eq!(kinds(&tokens), vec![TokenType::Identifier, TokenType::Identifier]);
    assert_eq!(lexemes(&tokens), vec!["a".to_string(), "d".to_string()]);
    assert_eq!(lines(&tokens), vec![1, 2]);
    assert!(errors.is_empty());
}

#[test]
fn nested_block_comment_is_skipped() {
    let (tokens, errors) = scan("/* a /* nested */ b */");
    assert!(tokens.is_empty());
    assert!(errors.is_empty());
}

#[test]
fn block_comment_counts_its_newlines() {
    let (tokens, errors) = scan("/* a\n /* nested\n */ b\n */ x");
    assert_eq!(kinds(&tokens), vec![TokenType::Identifier]);
    assert_eq!(tokens[0].lexeme, "x");
    assert_eq!(tokens[0].line, 4);
    assert!(errors.is_empty());
}

#[test]
fn block_comment_ends_at_its_own_close() {
    let (tokens, errors) = scan("/**/a/* * / */b/***/c");
    assert_eq!(lexemes(&tokens), vec!["a".to_string(), "b".to_string(), "c".to_string()]);
    assert!(errors.is_empty());
}

#[test]
fn unterminated_block_comment() {
    let (tokens, errors) = scan("/* a");
    assert_eq!(tokens.len(), 1);
    assert_eq!(tokens[0].token_type, TokenType::Invalid);
    assert_eq!(tokens[0].lexeme, "/* a");
    assert_eq!(tokens[0].literal, None);
    assert_eq!(errors, vec![Error::new(1, "Unterminated comment")]);
}

#[test]
fn unterminated_nested_block_comment_is_reported_once() {
    let (tokens, errors) = scan("x\n/* a /* b */\n c");
    assert_eq!(kinds(&tokens), vec![TokenType::Identifier, TokenType::Invalid]);
    assert_eq!(tokens[1].lexeme, "/* a /* b */\n c");
    assert_eq!(lines(&tokens), vec![1, 2]);
    assert_eq!(errors, vec![Error::new(2, "Unterminated comment")]);
}

#[test]
fn slash_star_slash_does_not_close() {
    let (tokens, errors) = scan("/*/");
    assert_eq!(kinds(&tokens), vec![TokenType::Invalid]);
    assert_eq!(errors.len(), 1);
    assert_eq!(errors[0].message, "Unterminated comment");
}

#[test]
fn unexpected_character() {
    let (tokens, errors) = scan("@");
    assert_eq!(tokens.len(), 1);
    assert_eq!(tokens[0].token_type, TokenType::Invalid);
    assert_eq!(tokens[0].lexeme, "@");
    assert_eq!(tokens[0].literal, None);
    assert_eq!(errors, vec![Error::new(1, "Unexpected Token")]);
}

#[test]
fn scanning_goes_on_after_an_error() {
    let (tokens, errors) = scan("a # b\n$ c");
    assert_eq!(
        kinds(&tokens),
        vec![
            TokenType::Identifier,
            TokenType::Invalid,
            TokenType::Identifier,
            TokenType::Invalid,
            TokenType::Identifier,
        ]
    );
    assert_eq!(
        errors,
        vec![Error::new(1, "Unexpected Token"), Error::new(2, "Unexpected Token")]
    );
}

#[test]
fn errors_come_in_source_order_one_for_each_invalid_token() {
    let (tokens, errors) = scan("@ /* open");
    assert_eq!(kinds(&tokens), vec![TokenType::Invalid, TokenType::Invalid]);
    assert_eq!(
        errors,
        vec![Error::new(1, "Unexpected Token"), Error::new(1, "Unterminated comment")]
    );
    let (tokens, errors) = scan("^\n\"open");
    let invalid = tokens.iter().filter(|t| t.token_type == TokenType::Invalid).count();
    assert_eq!(invalid, errors.len());
    assert_eq!(
        errors,
        vec![Error::new(1, "Unexpected Token"), Error::new(2, "Unterminated String")]
    );
}

#[test]
fn nul_character_is_unexpected() {
    let (tokens, errors) = scan("a\0b");
    assert_eq!(
        kinds(&tokens),
        vec![TokenType::Identifier, TokenType::Invalid, TokenType::Identifier]
    );
    assert_eq!(tokens[1].lexeme, "\0");
    assert_eq!(errors.len(), 1);
}

#[test]
fn token_lines_are_start_lines() {
    let source = "a\n\"one\ntwo\" b\n/* x\n\n y */ c \"z\"\n\nd";
    let (tokens, errors) = scan(source);
    assert_eq!(
        kinds(&tokens),
        vec![
            TokenType::Identifier,
            TokenType::String,
            TokenType::Identifier,
            TokenType::Identifier,
            TokenType::String,
            TokenType::Identifier,
        ]
    );
    assert_eq!(lines(&tokens), vec![1, 2, 3, 6, 6, 8]);
    assert_eq!(tokens[1].literal, Some(Literal::String("one\ntwo".to_string())));
    assert!(errors.is_empty());
    let mut searched_from = 0;
    for token in &tokens {
        let at = searched_from + source[searched_from..].find(&token.lexeme).unwrap();
        let line = 1 + source[..at].matches('\n').count();
        assert_eq!(token.line, line);
        searched_from = at + token.lexeme.len();
    }
}

#[test]
fn lexemes_and_skipped_spans_give_the_source_back() {
    let source = "var x = 12.5; // note\nprint \"a\nb\" /* c /* d */ e */ != y;\n@";
    let (tokens, _) = scan(source);
    let gaps = [
        "", " ", " ", " ", "", " // note\n", " ", " /* c /* d */ e */ ", " ", "", "\n", "",
    ];
    assert_eq!(tokens.len() + 1, gaps.len());
    let mut rebuilt = String::new();
    for (i, token) in tokens.iter().enumerate() {
        rebuilt.push_str(gaps[i]);
        rebuilt.push_str(&token.lexeme);
        assert!(!token.lexeme.is_empty());
    }
    rebuilt.push_str(gaps[tokens.len()]);
    assert_eq!(rebuilt, source);
    assert_eq!(
        kinds(&tokens),
        vec![
            TokenType::Var,
            TokenType::Identifier,
            TokenType::Equal,
            TokenType::Number,
            TokenType::Semicolon,
            TokenType::Print,
            TokenType::String,
            TokenType::BangEqual,
            TokenType::Identifier,
            TokenType::Semicolon,
            TokenType::Invalid,
        ]
    );
}

#[test]
fn a_small_program() {
    let source = "fun add(a, b) {\n  return a + b;\n}\nif (add(1, 2.0) >= 3) print \"ok\";";
    let (tokens, errors) = scan(source);
    assert!(errors.is_empty());
    assert_eq!(
        kinds(&tokens),
        vec![
            TokenType::Fun,
            TokenType::Identifier,
            TokenType::LeftParen,
            TokenType::Identifier,
            TokenType::Comma,
            TokenType::Identifier,
            TokenType::RightParen,
            TokenType::LeftBrace,
            TokenType::Return,
            TokenType::Identifier,
            TokenType::Plus,
            TokenType::Identifier,
            TokenType::Semicolon,
            TokenType::RightBrace,
            TokenType::If,
            TokenType::LeftParen,
            TokenType::Identifier,
            TokenType::LeftParen,
            TokenType::Number,
            TokenType::Comma,
            TokenType::Number,
            TokenType::RightParen,
            TokenType::GreaterEqual,
            TokenType::Number,
            TokenType::RightParen,
            TokenType::Print,
            TokenType::String,
            TokenType::Semicolon,
        ]
    );
    assert_eq!(tokens[13].line, 3);
    assert_eq!(tokens[14].line, 4);
    assert_eq!(tokens[20].literal, number(&[2, 0], 1));
}

#[test]
fn scan_tokens_hands_out_the_tokens() {
    let mut scanner = Scanner::new("a + 1");
    let tokens = scanner.scan_tokens();
    assert_eq!(tokens.len(), 3);
    assert_eq!(tokens[1].token_type, TokenType::Plus);
    assert!(scanner.errors.is_empty());
}

#[test]
fn scanning_again_adds_nothing() {
    let mut scanner = Scanner::new("a @ \"s\"");
    let first = scanner.scan_tokens().clone();
    let second = scanner.scan_tokens().clone();
    assert_eq!(first, second);
    assert_eq!(first.len(), 3);
    assert_eq!(scanner.errors.len(), 1);
}

#[test]
fn scans_are_independent() {
    let (first, _) = scan("a\nb");
    let (second, _) = scan("c");
    assert_eq!(lines(&first), vec![1, 2]);
    assert_eq!(lines(&second), vec![1]);
    assert_eq!(second[0].lexeme, "c");
}

#[test]
fn new_scanner_holds_nothing() {
    let scanner = Scanner::new("a b c");
    assert!(scanner.errors.is_empty());
    let (tokens, errors) = scanner.into_output();
    assert!(tokens.is_empty());
    assert!(errors.is_empty());
}

#[test]
fn token_new_keeps_its_parts() {
    let token = Token::new(
        TokenType::String,
        "\"x\"".to_string(),
        Some(Literal::String("x".to_string())),
        7,
    );
    assert_eq!(token.token_type, TokenType::String);
    assert_eq!(token.lexeme, "\"x\"");
    assert_eq!(token.literal, Some(Literal::String("x".to_string())));
    assert_eq!(token.line, 7);
}

#[test]
fn error_new_keeps_its_parts() {
    let error = Error::new(3, "Unterminated String");
    assert_eq!(error.line, 3);
    assert_eq!(error.message, "Unterminated String");
}
