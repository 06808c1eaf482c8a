use interpreter::ast::{ExpressionNode, Program, StatementNode};
use interpreter::lexer::Lexer;
use interpreter::parser::{get_prec_assoc, ParseError, Parser};
use interpreter::token::{Token, TokenType};

fn runner(input: String) -> Result<Program, ParseError> {
    let l = Lexer::from_string(input);
    let mut p = Parser::new(l);
    p.parse_program()
}

fn parse(input: &str) -> Program {
    runner(input.to_string()).unwrap()
}

fn error(input: &str) -> ParseError {
    runner(input.to_string()).unwrap_err()
}

fn shape(e: &ExpressionNode) -> String {
    match e {
        ExpressionNode::Ident(t) => t.clone().get_ident_name().unwrap(),
        ExpressionNode::Int(t) => match &t.kind {
            TokenType::Int(s) => s.clone(),
            _ => panic!(),
        },
        ExpressionNode::Bool(t) => format!("{:?}", t.kind).to_lowercase(),
        ExpressionNode::UnaryOperator(t, x) => format!("({:?} {})", t.kind, shape(x)),
        ExpressionNode::BinaryOperator(t, l, r) => {
            format!("({} {:?} {})", shape(l), t.kind, shape(r))
        }
        ExpressionNode::Block(stmts) => format!("{{{}}}", shapes(stmts)),
        ExpressionNode::If(_, c, a, b) => match b {
            Some(b) => format!(
                "if {} {{{}}} else {{{}}}",
                shape(c),
                shapes(&a.statements),
                shapes(&b.statements)
            ),
            None => format!("if {} {{{}}}", shape(c), shapes(&a.statements)),
        },
        ExpressionNode::Function(_, params, body) => format!(
            "fn({}) {{{}}}",
            params.iter().map(|p| p.get_string()).collect::<Vec<_>>().join(","),
            shapes(&body.statements)
        ),
        ExpressionNode::FunctionCall(_, f, args) => format!(
            "{}({})",
            shape(f),
            args.iter().map(shape).collect::<Vec<_>>().join(",")
        ),
    }
}

fn shapes(stmts: &[StatementNode]) -> String {
    stmts
        .iter()
        .map(|s| match s {
            StatementNode::Let(_, id, e) => format!("let {} = {};", id.get_string(), shape(e)),
            StatementNode::Return(_, e) => format!("return {};", shape(e)),
            StatementNode::Expression(e) => format!("{};", shape(e)),
        })
        .collect::<Vec<_>>()
        .join(" ")
}

fn shown(input: &str) -> String {
    shapes(&parse(input).statements)
}

#[test]
fn parser() {
    let input: String = "
        let five = -5;
        let ten = +10;
        let fifteen = ten - minus;
        let twentyFive = fifteen * 2 + five
        let OneZeroFive = (fifteen * (2 + five));
        let a = true;
        let b = false;
        let c = if 40 + 50 { true } else {80};
        let d = {
            let e = 42;
            e + 32
        };
        let f = fn(a, b, c) {
            let d = a+b-c;
            d * 2
        };
        let g = f(45,54,68,);
        let h = fn(b, c) {
            b + c
        }(41, 98);
    "
    .into();
    let ast = runner(input);
    assert!(ast.is_ok());
    assert_eq!(ast.unwrap().statements.len(), 12);
}

#[test]
fn precedence_groups_products_before_sums_before_equality() {
    assert_eq!(
        shown("3 + 4 * 5 == 3 * 1 + 4 * 5"),
        "((3 Plus (4 Asterisk 5)) Eq ((3 Asterisk 1) Plus (4 Asterisk 5)));"
    );
}

#[test]
fn comparison_groups_before_equality() {
    assert_eq!(shown("a == b < c"), "(a Eq (b LT c));");
    assert_eq!(shown("a < b == c"), "((a LT b) Eq c);");
    assert_eq!(shown("a != b > c + 1"), "(a NotEq (b GT (c Plus 1)));");
}

#[test]
fn parentheses_group_first() {
    assert_eq!(shown("fifteen * (2 + five)"), "(fifteen Asterisk (2 Plus five));");
    assert_eq!(shown("fifteen * 2 + five"), "((fifteen Asterisk 2) Plus five);");
    assert_eq!(shown("((a))"), "a;");
}

#[test]
fn equal_precedence_groups_to_the_left() {
    assert_eq!(shown("a - b - c"), "((a Minus b) Minus c);");
    assert_eq!(shown("a * b / c"), "((a Asterisk b) Slash c);");
    assert_eq!(shown("a + b - c + d"), "(((a Plus b) Minus c) Plus d);");
    assert_eq!(shown("a == b != c"), "((a Eq b) NotEq c);");
    assert_eq!(shown("a < b > c"), "((a LT b) GT c);");
    assert_eq!(shown("a - b * c - d"), "((a Minus (b Asterisk c)) Minus d);");
}

#[test]
fn prefix_operators_bind_tighter_than_binary_ones() {
    assert_eq!(shown("-a * b"), "((Minus a) Asterisk b);");
    assert_eq!(shown("!a == b"), "((Bang a) Eq b);");
    assert_eq!(shown("- - a"), "(Minus (Minus a));");
    assert_eq!(shown("a + -b"), "(a Plus (Minus b));");
    assert_eq!(shown("-f(x)"), "(Minus f(x));");
}

#[test]
fn calls_bind_tightest() {
    assert_eq!(shown("a + f(b) * c"), "(a Plus (f(b) Asterisk c));");
    assert_eq!(shown("newAdder(2)(3)"), "newAdder(2)(3);");
    assert_eq!(shown("f()"), "f();");
    assert_eq!(shown("f(1, 2 + 3,)"), "f(1,(2 Plus 3));");
    assert_eq!(shown("fn(b, c) { b + c }(41, 98)"), "fn(b,c) {(b Plus c);}(41,98);");
}

#[test]
fn semicolons_are_optional() {
    assert_eq!(shown("1 2; 3"), "1; 2; 3;");
    assert_eq!(shown("let a = 1 let b = 2"), "let a = 1; let b = 2;");
    assert_eq!(shown("return 1 return 2;"), "return 1; return 2;");
}

#[test]
fn a_block_followed_by_an_operator_is_its_left_operand() {
    assert_eq!(shown("{ 1 } - 5"), "({1;} Minus 5);");
    assert_eq!(shown("{ 1 }; - 5"), "{1;}; (Minus 5);");
}

#[test]
fn if_with_and_without_else() {
    assert_eq!(shown("if x { 1 }"), "if x {1;};");
    assert_eq!(shown("if x { 1 } else { 2 }"), "if x {1;} else {2;};");
    assert_eq!(shown("if (x > 1) { if y { 1 } }"), "if (x GT 1) {if y {1;};};");
    assert_eq!(shown("if x { } else { }"), "if x {} else {};");
}

#[test]
fn function_literals() {
    assert_eq!(shown("fn() { }"), "fn() {};");
    assert_eq!(shown("fn(a) { a }"), "fn(a) {a;};");
    assert_eq!(shown("fn(a, b,) { return a; }"), "fn(a,b) {return a;};");
}

#[test]
fn nodes_keep_their_tokens() {
    let p = parse("let x = f(1) + 2;");
    match &p.statements[0] {
        StatementNode::Let(t, id, e) => {
            assert_eq!(*t, Token::new(TokenType::Let, (0, 3)));
            assert_eq!(id.0, Token::new(TokenType::Ident("x".to_string()), (4, 5)));
            match e {
                ExpressionNode::BinaryOperator(op, l, r) => {
                    assert_eq!(*op, Token::new(TokenType::Plus, (13, 14)));
                    match &**l {
                        ExpressionNode::FunctionCall(site, f, args) => {
                            assert_eq!(*site, Token::new(TokenType::Lparen, (9, 10)));
                            assert_eq!(
                                **f,
                                ExpressionNode::Ident(Token::new(
                                    TokenType::Ident("f".to_string()),
                                    (8, 9)
                                ))
                            );
                            assert_eq!(args.len(), 1);
                        }
                        other => panic!("{:?}", other),
                    }
                    assert_eq!(
                        **r,
                        ExpressionNode::Int(Token::new(TokenType::Int("2".to_string()), (15, 16)))
                    );
                }
                other => panic!("{:?}", other),
            }
        }
        other => panic!("{:?}", other),
    }
    let p = parse("if a { } fn() { }");
    match &p.statements[0] {
        StatementNode::Expression(ExpressionNode::If(t, _, _, _)) => {
            assert_eq!(*t, Token::new(TokenType::If, (0, 2)));
        }
        other => panic!("{:?}", other),
    }
    match &p.statements[1] {
        StatementNode::Expression(ExpressionNode::Function(t, _, _)) => {
            assert_eq!(*t, Token::new(TokenType::Function, (9, 11)));
        }
        other => panic!("{:?}", other),
    }
}

#[test]
fn error_at_the_end_of_the_input() {
    assert_eq!(
        error("let a ="),
        ParseError { expected: "Any Expression".to_string(), found: None }
    );
    assert_eq!(
        error("1 +"),
        ParseError { expected: "Any Expression".to_string(), found: None }
    );
    assert_eq!(
        error("{ 1"),
        ParseError { expected: "Any Expression".to_string(), found: None }
    );
    assert_eq!(error("(1"), ParseError { expected: "Rparen".to_string(), found: None });
    assert_eq!(error("let"), ParseError { expected: "Ident(\"\")".to_string(), found: None });
    assert_eq!(error("if x"), ParseError { expected: "Lbrace".to_string(), found: None });
    assert_eq!(error("fn"), ParseError { expected: "Lparen".to_string(), found: None });
    assert_eq!(error("f(1"), ParseError { expected: "Comma".to_string(), found: None });
    assert_eq!(
        error("f(1,"),
        ParseError { expected: "Any Expression".to_string(), found: None }
    );
    assert_eq!(
        error("fn(a"),
        ParseError { expected: "Comma".to_string(), found: None }
    );
}

#[test]
fn error_names_the_token_that_was_found() {
    assert_eq!(
        error("let 5 = 1"),
        ParseError {
            expected: "Ident(\"\")".to_string(),
            found: Some(Token::new(TokenType::Int("5".to_string()), (4, 5))),
        }
    );
    assert_eq!(
        error("let a 1"),
        ParseError {
            expected: "Assign".to_string(),
            found: Some(Token::new(TokenType::Int("1".to_string()), (6, 7))),
        }
    );
    assert_eq!(
        error("1 + * 2"),
        ParseError {
            expected: "Ident|Int|UnaryOperator|(|{|if|fn".to_string(),
            found: Some(Token::new(TokenType::Asterisk, (4, 5))),
        }
    );
    assert_eq!(
        error(")"),
        ParseError {
            expected: "Ident|Int|UnaryOperator|(|{|if|fn".to_string(),
            found: Some(Token::new(TokenType::Rparen, (0, 1))),
        }
    );
    assert_eq!(
        error("(1 2)"),
        ParseError {
            expected: "Rparen".to_string(),
            found: Some(Token::new(TokenType::Int("2".to_string()), (3, 4))),
        }
    );
    assert_eq!(
        error("if x 1"),
        ParseError {
            expected: "Lbrace".to_string(),
            found: Some(Token::new(TokenType::Int("1".to_string()), (5, 6))),
        }
    );
    assert_eq!(
        error("if x { } else 1"),
        ParseError {
            expected: "Lbrace".to_string(),
            found: Some(Token::new(TokenType::Int("1".to_string()), (14, 15))),
        }
    );
    assert_eq!(
        error("fn x"),
        ParseError {
            expected: "Lparen".to_string(),
            found: Some(Token::new(TokenType::Ident("x".to_string()), (3, 4))),
        }
    );
    assert_eq!(
        error("fn(1)"),
        ParseError {
            expected: "Ident(\"\")".to_string(),
            found: Some(Token::new(TokenType::Int("1".to_string()), (3, 4))),
        }
    );
    assert_eq!(
        error("fn(a b)"),
        ParseError {
            expected: "Comma".to_string(),
            found: Some(Token::new(TokenType::Ident("b".to_string()), (5, 6))),
        }
    );
    assert_eq!(
        error("fn(,)"),
        ParseError {
            expected: "Ident(\"\")".to_string(),
            found: Some(Token::new(TokenType::Comma, (3, 4))),
        }
    );
    assert_eq!(
        error("f(1 2)"),
        ParseError {
            expected: "Comma".to_string(),
            found: Some(Token::new(TokenType::Int("2".to_string()), (4, 5))),
        }
    );
    assert_eq!(
        error("a # b"),
        ParseError {
            expected: "Ident|Int|UnaryOperator|(|{|if|fn".to_string(),
            found: Some(Token::new(TokenType::Illegal('#'), (2, 3))),
        }
    );
}

#[test]
fn only_the_first_error_is_reported() {
    assert_eq!(
        error("let = ; let = ;"),
        ParseError {
            expected: "Ident(\"\")".to_string(),
            found: Some(Token::new(TokenType::Assign, (4, 5))),
        }
    );
}

#[test]
fn precedence_table() {
    let t = |k: TokenType| Token::new(k, (0, 0));
    assert_eq!(get_prec_assoc(None), -100);
    assert_eq!(get_prec_assoc(Some(&t(TokenType::Eq))), 10);
    assert_eq!(get_prec_assoc(Some(&t(TokenType::NotEq))), 10);
    assert_eq!(get_prec_assoc(Some(&t(TokenType::LT))), 20);
    assert_eq!(get_prec_assoc(Some(&t(TokenType::GT))), 20);
    assert_eq!(get_prec_assoc(Some(&t(TokenType::Plus))), 30);
    assert_eq!(get_prec_assoc(Some(&t(TokenType::Minus))), 30);
    assert_eq!(get_prec_assoc(Some(&t(TokenType::Asterisk))), 40);
    assert_eq!(get_prec_assoc(Some(&t(TokenType::Slash))), 40);
    assert_eq!(get_prec_assoc(Some(&t(TokenType::Lparen))), 110);
    assert_eq!(get_prec_assoc(Some(&t(TokenType::Rparen))), -1);
    assert_eq!(get_prec_assoc(Some(&t(TokenType::Semicolon))), -100);
    assert_eq!(get_prec_assoc(Some(&t(TokenType::Bang))), -100);
}

#[test]
fn parsing_a_list_of_tokens() {
    let tokens = vec![
        Token::new(TokenType::Int("1".to_string()), (0, 1)),
        Token::new(TokenType::Plus, (2, 3)),
        Token::new(TokenType::Int("2".to_string()), (4, 5)),
    ];
    let mut p = Parser::from_tokens(tokens);
    assert_eq!(p.parse_program(), Ok(parse("1 + 2")));
    let mut p = Parser::from_tokens(vec![]);
    assert_eq!(p.parse_program(), Ok(parse("")));
    let mut p = Parser::from_tokens(vec![Token::new(TokenType::Eof, (0, 0))]);
    assert!(p.parse_program().is_err());
}
