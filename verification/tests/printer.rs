use interpreter::ast::Program;
use interpreter::lexer::Lexer;
use interpreter::parser::Parser;
use interpreter::printer::print;
use interpreter::roundtrip::reparse;
use interpreter::token::{Token, TokenType};

fn parse(input: &str) -> Program {
    let l = Lexer::from_string(input.to_string());
    let mut p = Parser::new(l);
    p.parse_program().unwrap()
}

fn kinds(tokens: &[Token]) -> Vec<TokenType> {
    tokens.iter().map(|t| t.kind.clone()).collect()
}

#[test]
fn printed_tokens_of_a_let() {
    let tokens = print(&parse("let a = 1 + 2"));
    assert_eq!(
        kinds(&tokens),
        vec![
            TokenType::Let,
            TokenType::Ident("a".to_string()),
            TokenType::Assign,
            TokenType::Lparen,
            TokenType::Lparen,
            TokenType::Int("1".to_string()),
            TokenType::Rparen,
            TokenType::Plus,
            TokenType::Lparen,
            TokenType::Int("2".to_string()),
            TokenType::Rparen,
            TokenType::Rparen,
            TokenType::Semicolon,
        ]
    );
    assert_eq!(tokens[0].span, (0, 3));
    assert_eq!(tokens[1].span, (4, 5));
    assert_eq!(tokens[2].span, (0, 0));
    assert_eq!(tokens[5].span, (8, 9));
    assert_eq!(tokens[7].span, (10, 11));
}

#[test]
fn printed_tokens_of_a_call_and_a_function() {
    let tokens = print(&parse("fn(x, y) { x }(1)"));
    assert_eq!(
        kinds(&tokens),
        vec![
            TokenType::Lparen,
            TokenType::Lparen,
            TokenType::Function,
            TokenType::Lparen,
            TokenType::Ident("x".to_string()),
            TokenType::Comma,
            TokenType::Ident("y".to_string()),
            TokenType::Comma,
            TokenType::Rparen,
            TokenType::Lbrace,
            TokenType::Lparen,
            TokenType::Ident("x".to_string()),
            TokenType::Rparen,
            TokenType::Semicolon,
            TokenType::Rbrace,
            TokenType::Rparen,
            TokenType::Lparen,
            TokenType::Lparen,
            TokenType::Int("1".to_string()),
            TokenType::Rparen,
            TokenType::Comma,
            TokenType::Rparen,
            TokenType::Rparen,
            TokenType::Semicolon,
        ]
    );
}

#[test]
fn empty_program_prints_nothing() {
    assert_eq!(print(&parse("")), Vec::<Token>::new());
}

#[test]
fn reparsing_the_printed_program_gives_it_back() {
    let sources = [
        "",
        "5",
        "let five = -5; let ten = +10; !true",
        "3 + 4 * 5 == 3 * 1 + 4 * 5",
        "10 - 2 - 3; (10 - 2) - 3",
        "let c = if 40 + 50 { true } else { 80 };",
        "if 1 { 2 } 3",
        "let d = { let e = 42; e + 32 };",
        "let f = fn(a, b, c) { let d = a+b-c; d * 2 }; let g = f(45,54,68,);",
        "let h = fn(b, c) { b + c }(41, 98);",
        "let newAdder = fn(x) { fn(y) { x + y } }; newAdder(2)(3)",
        "return 72 * 43; -5478/7;",
        "fn() { }()",
        "if (5 < 10) { return true; } else { return false; }",
    ];
    for source in sources {
        let program = parse(source);
        let again = reparse(&program);
        assert_eq!(again, Ok(program));
    }
}
