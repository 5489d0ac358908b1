use lax::scanner::{attach, keyword_of, numerals, same_text, Scanner};
use lax::{LoxType, Number, Token, TokenType};

fn scan(source: &str) -> Vec<Token> {
    let mut scanner = Scanner::new(source.to_string());
    scanner.scan().unwrap();
    scanner.tokens
}

fn kinds(source: &str) -> Vec<TokenType> {
    scan(source).iter().map(|t| t.token).collect()
}

fn errors(source: &str) -> Vec<(String, i32)> {
    let mut scanner = Scanner::new(source.to_string());
    match scanner.scan() {
        Ok(()) => Vec::new(),
        Err(errors) => {
            assert!(scanner.tokens.is_empty());
            errors.iter().map(|e| (e.description().to_string(), e.line())).collect()
        }
    }
}

#[test]
fn punctuation_is_scanned() {
    assert_eq!(
        kinds("(){},.-+;*/"),
        vec![
            TokenType::LeftParenthesis,
            TokenType::RightParenthesis,
            TokenType::LeftBrace,
            TokenType::RightBrace,
            TokenType::Comma,
            TokenType::Dot,
            TokenType::Minus,
            TokenType::Plus,
            TokenType::Semicolon,
            TokenType::Star,
            TokenType::Slash,
            TokenType::EOF
        ]
    );
}

#[test]
fn one_plus_two() {
    let tokens = scan("1+2");
    let got: Vec<TokenType> = tokens.iter().map(|t| t.token).collect();
    assert_eq!(got, vec![TokenType::Number, TokenType::Plus, TokenType::Number, TokenType::EOF]);
    assert_eq!(tokens[0].lexeme, "1");
    assert_eq!(tokens[0].lexeme.parse::<f64>().unwrap(), 1.0);
    assert_eq!(tokens[1].lexeme, "+");
    assert_eq!(tokens[2].lexeme, "2");
    assert_eq!(tokens[2].lexeme.parse::<f64>().unwrap(), 2.0);
    assert_eq!(tokens[3].lexeme, "");
}

#[test]
fn whitespace_makes_no_tokens() {
    assert_eq!(
        kinds(" 1 \t+\r\n 2 "),
        vec![TokenType::Number, TokenType::Plus, TokenType::Number, TokenType::EOF]
    );
}

#[test]
fn end_of_input_is_last_and_only_last() {
    for source in ["", "a", "var a = 1;", "// nothing", "\n\n", "fun f() { return 1; }"] {
        let got = kinds(source);
        assert_eq!(*got.last().unwrap(), TokenType::EOF);
        assert!(got[..got.len() - 1].iter().all(|k| *k != TokenType::EOF));
    }
}

#[test]
fn scanning_twice_gives_the_same_tokens() {
    let mut scanner = Scanner::new("a b".to_string());
    scanner.scan().unwrap();
    scanner.scan().unwrap();
    let got: Vec<TokenType> = scanner.tokens.iter().map(|t| t.token).collect();
    assert_eq!(got, vec![TokenType::Identifier, TokenType::Identifier, TokenType::EOF]);
}

#[test]
fn two_character_operators_are_greedy() {
    assert_eq!(
        kinds("! != = == < <= > >= =!"),
        vec![
            TokenType::Bang,
            TokenType::BangEqual,
            TokenType::Equal,
            TokenType::EqualEqual,
            TokenType::Less,
            TokenType::LessEqual,
            TokenType::Greater,
            TokenType::GreaterEqual,
            TokenType::Equal,
            TokenType::Bang,
            TokenType::EOF
        ]
    );
    let tokens = scan("<=");
    assert_eq!(tokens[0].lexeme, "<=");
}

#[test]
fn comments_run_to_the_end_of_the_line() {
    let tokens = scan("a // b c\nd // e");
    let got: Vec<&str> = tokens.iter().map(|t| t.lexeme.as_str()).collect();
    assert_eq!(got, vec!["a", "d", ""]);
    assert_eq!(tokens[0].line, 0);
    assert_eq!(tokens[1].line, 1);
    assert_eq!(tokens[2].line, 1);
}

#[test]
fn lines_are_counted_from_zero() {
    let tokens = scan("a\nb\n\nc");
    let lines: Vec<i32> = tokens.iter().map(|t| t.line).collect();
    assert_eq!(lines, vec![0, 1, 3, 3]);
}

#[test]
fn string_literal_carries_its_text() {
    let tokens = scan("\"hello world\"");
    assert_eq!(tokens[0].token, TokenType::String);
    assert_eq!(tokens[0].lexeme, "\"hello world\"");
    match &tokens[0].literal {
        Some(LoxType::String(s)) => assert_eq!(s, "hello world"),
        other => panic!("unexpected literal {:?}", other),
    }
}

#[test]
fn empty_string_literal() {
    let tokens = scan("\"\"");
    assert_eq!(tokens[0].lexeme, "\"\"");
    match &tokens[0].literal {
        Some(LoxType::String(s)) => assert_eq!(s, ""),
        other => panic!("unexpected literal {:?}", other),
    }
}

#[test]
fn string_literal_may_span_lines() {
    let tokens = scan("\"a\nb\nc\" x");
    assert_eq!(tokens[0].token, TokenType::String);
    assert_eq!(tokens[0].line, 2);
    assert_eq!(tokens[1].line, 2);
    match &tokens[0].literal {
        Some(LoxType::String(s)) => assert_eq!(s, "a\nb\nc"),
        other => panic!("unexpected literal {:?}", other),
    }
}

#[test]
fn unterminated_string_is_an_error() {
    assert_eq!(errors("\"abc"), vec![("Unterminated string".to_string(), 0)]);
}

#[test]
fn unterminated_string_is_reported_at_the_line_where_the_scan_ended() {
    assert_eq!(errors("\"a\nb\nc"), vec![("Unterminated string".to_string(), 2)]);
    assert_eq!(errors("x\n\"a\n"), vec![("Unterminated string".to_string(), 2)]);
}

#[test]
fn unexpected_character_does_not_stop_the_scan() {
    assert_eq!(
        errors("a @ b\n# \"c"),
        vec![
            ("Unexpected character".to_string(), 0),
            ("Unexpected character".to_string(), 1),
            ("Unterminated string".to_string(), 1)
        ]
    );
}

#[test]
fn numbers_have_digits_and_at_most_one_point() {
    let tokens = scan("12 3.25 4. .5 6.7.8");
    let got: Vec<(TokenType, &str)> = tokens.iter().map(|t| (t.token, t.lexeme.as_str())).collect();
    assert_eq!(
        got,
        vec![
            (TokenType::Number, "12"),
            (TokenType::Number, "3.25"),
            (TokenType::Number, "4"),
            (TokenType::Dot, "."),
            (TokenType::Dot, "."),
            (TokenType::Number, "5"),
            (TokenType::Number, "6.7"),
            (TokenType::Dot, "."),
            (TokenType::Number, "8"),
            (TokenType::EOF, "")
        ]
    );
    assert!(tokens[0].literal.is_none());
}

#[test]
fn identifiers_and_keywords() {
    let tokens = scan("and class else false for fun if nil or return super this true var while import andy _x a-b a1 é");
    let got: Vec<TokenType> = tokens.iter().map(|t| t.token).collect();
    assert_eq!(
        got,
        vec![
            TokenType::And,
            TokenType::Class,
            TokenType::Else,
            TokenType::False,
            TokenType::For,
            TokenType::Fun,
            TokenType::If,
            TokenType::Nil,
            TokenType::Or,
            TokenType::Return,
            TokenType::Super,
            TokenType::This,
            TokenType::True,
            TokenType::Var,
            TokenType::While,
            TokenType::Import,
            TokenType::Identifier,
            TokenType::Identifier,
            TokenType::Identifier,
            TokenType::Identifier,
            TokenType::Identifier,
            TokenType::EOF
        ]
    );
    assert_eq!(tokens[16].lexeme, "andy");
    assert_eq!(tokens[18].lexeme, "a-b");
    assert_eq!(tokens[20].lexeme, "é");
}

#[test]
fn a_leading_hyphen_is_a_minus() {
    assert_eq!(kinds("-a"), vec![TokenType::Minus, TokenType::Identifier, TokenType::EOF]);
}

#[test]
fn digits_do_not_start_an_identifier() {
    let tokens = scan("1a");
    let got: Vec<(TokenType, &str)> = tokens.iter().map(|t| (t.token, t.lexeme.as_str())).collect();
    assert_eq!(
        got,
        vec![(TokenType::Number, "1"), (TokenType::Identifier, "a"), (TokenType::EOF, "")]
    );
}

#[test]
fn keyword_lookup() {
    assert_eq!(keyword_of("while"), Some(TokenType::While));
    assert_eq!(keyword_of("While"), None);
    assert_eq!(keyword_of(""), None);
}

#[test]
fn texts_are_compared_by_content() {
    assert!(same_text("abc", "abc"));
    assert!(!same_text("abc", "abd"));
    assert!(!same_text("abc", "ab"));
}

#[test]
fn into_tokens_hands_out_the_tokens() {
    let mut scanner = Scanner::new("a".to_string());
    scanner.scan().unwrap();
    let tokens = scanner.into_tokens();
    assert_eq!(tokens.len(), 2);
}

#[test]
fn numerals_are_the_lexemes_of_the_number_tokens() {
    let tokens = scan("a = 1 + 2.5 * \"3\" - 40;");
    assert_eq!(numerals(&tokens), vec!["1", "2.5", "40"]);
    assert!(numerals(&scan("a;")).is_empty());
}

#[test]
fn numbers_are_attached_in_order() {
    let tokens = scan("1+2");
    let numbers = vec![Number::from_bits(1.0f64.to_bits()), Number::from_bits(2.0f64.to_bits())];
    let with = attach(&tokens, &numbers);
    let kinds: Vec<TokenType> = with.iter().map(|t| t.token).collect();
    assert_eq!(kinds, vec![TokenType::Number, TokenType::Plus, TokenType::Number, TokenType::EOF]);
    match (&with[0].literal, &with[2].literal) {
        (Some(LoxType::Number(a)), Some(LoxType::Number(b))) => {
            assert_eq!(f64::from_bits(a.to_bits()), 1.0);
            assert_eq!(f64::from_bits(b.to_bits()), 2.0);
        }
        other => panic!("unexpected {:?}", other),
    }
    assert!(with[1].literal.is_none());
    assert_eq!(with[0].lexeme, "1");
    assert_eq!(with[2].line, 0);
}

#[test]
fn a_number_token_without_a_number_stays_as_it_is() {
    let tokens = scan("1 \"s\" 2 3");
    let with = attach(&tokens, &vec![Number::from_bits(7)]);
    assert!(matches!(with[0].literal, Some(LoxType::Number(_))));
    assert!(matches!(with[1].literal, Some(LoxType::String(_))));
    assert!(with[2].literal.is_none());
    assert!(with[3].literal.is_none());
    assert_eq!(with.len(), tokens.len());
}
