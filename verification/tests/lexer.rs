use interpreter::lexer::{CharClass, Lexer};
use interpreter::token::{
    tt_delimiters, tt_double_operators, tt_keywords, tt_single_operators, Token, TokenType,
};

fn collect(input: &str) -> Vec<Token> {
    let mut l = Lexer::from_string(input.to_string());
    let mut out = Vec::new();
    while let Some(t) = l.next() {
        out.push(t);
    }
    out
}

fn kinds(input: &str) -> Vec<TokenType> {
    collect(input).into_iter().map(|t| t.kind).collect()
}

#[test]
fn lexer() {
    let mut l = Lexer::from_string(
        "
        let five = 5;
        let ten = 10;
        let add = fn(x, y) {
        x + y;
        };
        let result = add(five, ten);
        !-/*5;
        5 < 10 > 5;
        if (5 < 10) {
        return true;
        } else {
        return false;
        }
        10 == 10;
        10 != 9;
        let five = 5;
        let ten = 10;
        let add = fn(x, y) {
        x + y;
        };
        let result = add(five, ten);
        !-/*5;
        5 < 10 > 5;
    "
        .into(),
    );
    let mut count = 0;
    while let Some(i) = l.next() {
        println!("{:?}", i);
        count += 1;
    }
    assert_eq!(count, 121);
}

#[test]
fn lexer_token_kinds_and_spans() {
    let toks = collect("let x1 = 42;");
    assert_eq!(
        toks,
        vec![
            Token::new(TokenType::Let, (0, 3)),
            Token::new(TokenType::Ident("x1".to_string()), (4, 6)),
            Token::new(TokenType::Assign, (7, 8)),
            Token::new(TokenType::Int("42".to_string()), (9, 11)),
            Token::new(TokenType::Semicolon, (11, 12)),
        ]
    );
}

#[test]
fn every_operator_and_delimiter() {
    assert_eq!(
        kinds("= + - * / < > ! == != , ; ( ) { }"),
        vec![
            TokenType::Assign,
            TokenType::Plus,
            TokenType::Minus,
            TokenType::Asterisk,
            TokenType::Slash,
            TokenType::LT,
            TokenType::GT,
            TokenType::Bang,
            TokenType::Eq,
            TokenType::NotEq,
            TokenType::Comma,
            TokenType::Semicolon,
            TokenType::Lparen,
            TokenType::Rparen,
            TokenType::Lbrace,
            TokenType::Rbrace,
        ]
    );
}

#[test]
fn every_keyword() {
    assert_eq!(
        kinds("fn let true false if else return"),
        vec![
            TokenType::Function,
            TokenType::Let,
            TokenType::True,
            TokenType::False,
            TokenType::If,
            TokenType::Else,
            TokenType::Return,
        ]
    );
}

#[test]
fn words_take_as_many_characters_as_they_can() {
    assert_eq!(
        kinds("letter iff fn1 returned If"),
        vec![
            TokenType::Ident("letter".to_string()),
            TokenType::Ident("iff".to_string()),
            TokenType::Ident("fn1".to_string()),
            TokenType::Ident("returned".to_string()),
            TokenType::Ident("If".to_string()),
        ]
    );
    assert_eq!(
        collect("12ab"),
        vec![
            Token::new(TokenType::Int("12".to_string()), (0, 2)),
            Token::new(TokenType::Ident("ab".to_string()), (2, 4)),
        ]
    );
}

#[test]
fn double_operators_are_preferred() {
    assert_eq!(
        collect("===!=!"),
        vec![
            Token::new(TokenType::Eq, (0, 2)),
            Token::new(TokenType::Assign, (2, 3)),
            Token::new(TokenType::NotEq, (3, 5)),
            Token::new(TokenType::Bang, (5, 6)),
        ]
    );
}

#[test]
fn white_space_separates_and_is_skipped() {
    assert_eq!(
        collect(" \t\r\n\x0Ca \n"),
        vec![Token::new(TokenType::Ident("a".to_string()), (5, 6))]
    );
    assert_eq!(collect("   "), vec![]);
    assert_eq!(collect(""), vec![]);
}

#[test]
fn illegal_characters_are_single_tokens() {
    assert_eq!(
        collect("a # b"),
        vec![
            Token::new(TokenType::Ident("a".to_string()), (0, 1)),
            Token::new(TokenType::Illegal('#'), (2, 3)),
            Token::new(TokenType::Ident("b".to_string()), (4, 5)),
        ]
    );
    assert_eq!(
        collect("x_y"),
        vec![
            Token::new(TokenType::Ident("x".to_string()), (0, 1)),
            Token::new(TokenType::Illegal('_'), (1, 2)),
            Token::new(TokenType::Ident("y".to_string()), (2, 3)),
        ]
    );
}

#[test]
fn characters_beyond_ascii_are_illegal_and_counted_once() {
    assert_eq!(
        collect("a é b"),
        vec![
            Token::new(TokenType::Ident("a".to_string()), (0, 1)),
            Token::new(TokenType::Illegal('é'), (2, 3)),
            Token::new(TokenType::Ident("b".to_string()), (4, 5)),
        ]
    );
}

#[test]
fn a_nul_character_is_illegal_and_the_tokens_go_on() {
    assert_eq!(
        collect("a\0b"),
        vec![
            Token::new(TokenType::Ident("a".to_string()), (0, 1)),
            Token::new(TokenType::Illegal('\0'), (1, 2)),
            Token::new(TokenType::Ident("b".to_string()), (2, 3)),
        ]
    );
    assert_eq!(collect("\0"), vec![Token::new(TokenType::Illegal('\0'), (0, 1))]);
}

#[test]
fn next_token_gives_eof_again_and_again() {
    let mut l = Lexer::from_string("x ".to_string());
    assert_eq!(l.next_token(), Token::new(TokenType::Ident("x".to_string()), (0, 1)));
    assert_eq!(l.next_token(), Token::new(TokenType::Eof, (2, 2)));
    assert_eq!(l.next_token(), Token::new(TokenType::Eof, (2, 2)));
    assert_eq!(l.next(), None);
}

#[test]
fn character_classes() {
    for c in [' ', '\t', '\n', '\r', '\x0C'] {
        assert!(CharClass::Space.contains(c));
    }
    assert!(!CharClass::Space.contains('\x0B'));
    assert!(!CharClass::Space.contains('a'));
    for c in ['a', 'z', 'A', 'Z', 'm'] {
        assert!(CharClass::Letter.contains(c));
        assert!(CharClass::Alphanumeric.contains(c));
        assert!(!CharClass::Digit.contains(c));
    }
    for c in ['0', '9', '5'] {
        assert!(CharClass::Digit.contains(c));
        assert!(CharClass::Alphanumeric.contains(c));
        assert!(!CharClass::Letter.contains(c));
    }
    for c in ['_', '`', '{', '@', '[', '/', ':', 'é'] {
        assert!(!CharClass::Alphanumeric.contains(c));
    }
    for c in '\0'..='\x7f' {
        assert_eq!(CharClass::Space.contains(c), (c as u8).is_ascii_whitespace());
        assert_eq!(CharClass::Letter.contains(c), c.is_ascii_alphabetic());
        assert_eq!(CharClass::Digit.contains(c), c.is_ascii_digit());
        assert_eq!(CharClass::Alphanumeric.contains(c), c.is_ascii_alphanumeric());
    }
}

#[test]
fn token_tables() {
    assert_eq!(tt_single_operators('+'), Some(TokenType::Plus));
    assert_eq!(tt_single_operators('='), Some(TokenType::Assign));
    assert_eq!(tt_single_operators(','), None);
    assert_eq!(tt_double_operators('=', '='), Some(TokenType::Eq));
    assert_eq!(tt_double_operators('!', '='), Some(TokenType::NotEq));
    assert_eq!(tt_double_operators('=', '!'), None);
    assert_eq!(tt_double_operators('<', '='), None);
    assert_eq!(tt_delimiters('{'), Some(TokenType::Lbrace));
    assert_eq!(tt_delimiters(';'), Some(TokenType::Semicolon));
    assert_eq!(tt_delimiters('+'), None);
    assert_eq!(tt_keywords("fn"), Some(TokenType::Function));
    assert_eq!(tt_keywords("return"), Some(TokenType::Return));
    assert_eq!(tt_keywords("Return"), None);
    assert_eq!(tt_keywords("retur"), None);
    assert_eq!(tt_keywords(""), None);
}

#[test]
fn token_helpers() {
    let t = Token::new(TokenType::Ident("abc".to_string()), (1, 4));
    assert_eq!(t.clone(), t);
    assert_eq!(t.clone().get_ident_name(), Some("abc".to_string()));
    assert_eq!(Token::new(TokenType::Int("1".to_string()), (0, 1)).get_ident_name(), None);
    assert_eq!(Token::new(TokenType::Let, (0, 3)).get_ident_name(), None);
    assert!(TokenType::Ident("a".to_string()).same_variant(&TokenType::Ident(String::new())));
    assert!(!TokenType::Ident("a".to_string()).same_variant(&TokenType::Int("a".to_string())));
    assert!(TokenType::Illegal('a').same_variant(&TokenType::Illegal('b')));
    assert!(TokenType::Plus.same_variant(&TokenType::Plus));
    assert!(!TokenType::Plus.same_variant(&TokenType::Minus));
    assert_eq!(TokenType::Semicolon.describe(), "Semicolon");
    assert_eq!(TokenType::Ident(String::new()).describe(), "Ident(\"\")");
    assert_eq!(TokenType::Ident("x".to_string()).describe(), "Ident(\"x\")");
    assert_eq!(TokenType::Int("12".to_string()).describe(), "Int(\"12\")");
    assert_eq!(TokenType::Illegal('#').describe(), "Illegal");
    assert_eq!(TokenType::LT.describe(), format!("{:?}", TokenType::LT));
    assert_eq!(TokenType::Function.describe(), format!("{:?}", TokenType::Function));
    assert_eq!(
        TokenType::Ident("x".to_string()).describe(),
        format!("{:?}", TokenType::Ident("x".to_string()))
    );
}
