use interpreter::ast::{Block, ExpressionNode, Ident, Node, Program, StatementNode};
use interpreter::dictionary::Dictionary;
use interpreter::env::Env;
use interpreter::evaluation::{
    eval, eval_binary, eval_bool, eval_err, eval_ident, eval_int, eval_unary, EvalError,
};
use interpreter::nodes::{
    BinaryOperator, Bool, ExpressionStatement, Function, FunctionCall, If, Int, LetStatement,
    ReturnStatement, UnaryOperator,
};
use interpreter::object::Object;
use interpreter::source::{reversed, TokenSource};
use interpreter::text::{
    chars_of, decimal_string, parse_integer_text, signed_decimal_string, span_string,
};
use interpreter::token::{Token, TokenType};

fn token(kind: TokenType) -> Token {
    Token::new(kind, (3, 4))
}

fn number(i: &str) -> ExpressionNode {
    ExpressionNode::Int(token(TokenType::Int(i.to_string())))
}

#[test]
fn decimal_notation() {
    assert_eq!(decimal_string(0), "0");
    assert_eq!(decimal_string(7), "7");
    assert_eq!(decimal_string(10), "10");
    assert_eq!(decimal_string(1234567890), "1234567890");
    assert_eq!(decimal_string(usize::MAX), usize::MAX.to_string());
    assert_eq!(signed_decimal_string(0), "0");
    assert_eq!(signed_decimal_string(-1), "-1");
    assert_eq!(signed_decimal_string(42), "42");
    assert_eq!(signed_decimal_string(isize::MAX), isize::MAX.to_string());
    assert_eq!(signed_decimal_string(isize::MIN), isize::MIN.to_string());
    assert_eq!(span_string((0, 0)), "(0, 0)");
    assert_eq!(span_string((12, 345)), format!("{:?}", (12usize, 345usize)));
}

#[test]
fn integer_literals_read_as_the_standard_library_reads_them() {
    let max = isize::MAX.to_string();
    let min = isize::MIN.to_string();
    let above = format!("{}0", max);
    let below = format!("{}0", min);
    let cases = [
        "0", "7", "42", "007", "+5", "-5", "-0", "+0", "", "+", "-", "a", "1a", "a1", " 1", "1 ",
        "--1", "+-1", "1_000", "١", &max, &min, &above, &below, "99999999999999999999x",
        "-99999999999999999999x", "x99999999999999999999",
    ];
    for case in cases {
        let expected = case.parse::<isize>().map_err(|e| e.to_string());
        assert_eq!(parse_integer_text(case), expected, "{:?}", case);
    }
}

#[test]
fn characters_of_a_text() {
    assert_eq!(chars_of(""), Vec::<char>::new());
    assert_eq!(chars_of("aé1"), vec!['a', 'é', '1']);
}

#[test]
fn object_arithmetic() {
    assert_eq!(Object::Int(2).add(Object::Int(3)), Ok(Object::Int(5)));
    assert_eq!(Object::Int(2).sub(Object::Int(3)), Ok(Object::Int(-1)));
    assert_eq!(Object::Int(2).mul(Object::Int(3)), Ok(Object::Int(6)));
    assert_eq!(Object::Int(7).div(Object::Int(2)), Ok(Object::Int(3)));
    assert_eq!(Object::Int(-7).div(Object::Int(2)), Ok(Object::Int(-3)));
    assert_eq!(
        Object::Int(isize::MAX).add(Object::Int(1)),
        Err("Integer overflow".to_string())
    );
    assert_eq!(
        Object::Int(isize::MIN).sub(Object::Int(1)),
        Err("Integer overflow".to_string())
    );
    assert_eq!(
        Object::Int(isize::MAX).mul(Object::Int(2)),
        Err("Integer overflow".to_string())
    );
    assert_eq!(
        Object::Int(isize::MIN).div(Object::Int(-1)),
        Err("Integer overflow".to_string())
    );
    assert_eq!(Object::Int(1).div(Object::Int(0)), Err("Division by zero".to_string()));
    assert_eq!(
        Object::Null.add(Object::Int(1)),
        Err("Addition requires that both operands are integers".to_string())
    );
    assert_eq!(
        Object::Int(1).sub(Object::Bool(true)),
        Err("Subtraction requires that both operands are integers".to_string())
    );
    assert_eq!(
        Object::Bool(true).mul(Object::Bool(true)),
        Err("Multiplication requires that both operands are integers".to_string())
    );
    assert_eq!(
        Object::Null.div(Object::Null),
        Err("Division requires that both operands are integers".to_string())
    );
}

#[test]
fn object_comparisons() {
    assert_eq!(Object::Int(2).eq(Object::Int(2)), Ok(Object::Bool(true)));
    assert_eq!(Object::Int(2).not_eq(Object::Int(2)), Ok(Object::Bool(false)));
    assert_eq!(Object::Bool(true).eq(Object::Bool(false)), Ok(Object::Bool(false)));
    assert_eq!(Object::Null.eq(Object::Null), Ok(Object::Bool(true)));
    assert_eq!(Object::Null.not_eq(Object::Null), Ok(Object::Bool(false)));
    assert_eq!(Object::Int(2).gt(Object::Int(1)), Ok(Object::Bool(true)));
    assert_eq!(Object::Int(2).lt(Object::Int(1)), Ok(Object::Bool(false)));
    assert_eq!(
        Object::Null.eq(Object::Int(-3)),
        Err("==/!= operator is not valid for types: Null, Int(-3)".to_string())
    );
    assert_eq!(
        Object::Return(Box::new(Object::Bool(false))).not_eq(Object::Error("x".to_string())),
        Err("==/!= operator is not valid for types: Return(Bool(false)), Error(\"x\")".to_string())
    );
    assert_eq!(
        Object::CompiledFunction(vec![1]).gt(Object::Null),
        Err(">/< operator is not valid for types: CompiledFunction, Null".to_string())
    );
    assert_eq!(
        Object::Bool(true).lt(Object::Bool(true)),
        Err(">/< operator is not valid for types: Bool(true), Bool(true)".to_string())
    );
}

#[test]
fn object_descriptions_are_those_of_debug_for_plain_values() {
    for o in [
        Object::Int(0),
        Object::Int(-12),
        Object::Bool(true),
        Object::Bool(false),
        Object::Null,
        Object::Return(Box::new(Object::Int(1))),
        Object::Error("plain".to_string()),
    ] {
        assert_eq!(o.describe(), format!("{:?}", o));
    }
    let f = Object::Function(token(TokenType::Function), vec![], Block::new(vec![]), 0);
    assert_eq!(f.describe(), "Function");
}

#[test]
fn truthiness_and_unwrapping() {
    assert!(!Object::Null.into_bool());
    assert!(!Object::Bool(false).into_bool());
    assert!(Object::Bool(true).into_bool());
    assert!(Object::Int(0).into_bool());
    assert!(Object::Error(String::new()).into_bool());
    assert!(Object::Return(Box::new(Object::Null)).into_bool());
    assert_eq!(Object::from_bool(true), Object::Bool(true));
    assert_eq!(Object::Int(1).unwrapped(), Object::Int(1));
    assert_eq!(
        Object::Return(Box::new(Object::Return(Box::new(Object::Int(1))))).unwrapped(),
        Object::Int(1)
    );
    let o = Object::Return(Box::new(Object::Error("e".to_string())));
    assert_eq!(o.clone(), o);
}

#[test]
fn dictionary_sets_and_gets() {
    let mut d: Dictionary<u8> = Dictionary::new();
    assert_eq!(d.get(&"a".to_string()), None);
    d.set("a".to_string(), 1);
    d.set("b".to_string(), 2);
    assert_eq!(d.get(&"a".to_string()), Some(&1));
    assert_eq!(d.get(&"b".to_string()), Some(&2));
    d.set("a".to_string(), 3);
    assert_eq!(d.get(&"a".to_string()), Some(&3));
    assert_eq!(d.get(&"b".to_string()), Some(&2));
    assert_eq!(d.get(&"".to_string()), None);
}

#[test]
fn environment_looks_outward() {
    let mut env = Env::new();
    assert_eq!(env.len(), 1);
    env.set(0, "a".to_string(), Object::Int(1));
    env.set(0, "b".to_string(), Object::Int(2));
    let inner = env.extend(0);
    assert_eq!(inner, 1);
    let other = env.extend(0);
    assert_eq!(other, 2);
    let innermost = env.extend(inner);
    assert_eq!(env.len(), 4);
    env.set(inner, "a".to_string(), Object::Int(10));
    env.set(innermost, "c".to_string(), Object::Int(30));
    assert_eq!(env.get(0, &"a".to_string()), Some(Object::Int(1)));
    assert_eq!(env.get(inner, &"a".to_string()), Some(Object::Int(10)));
    assert_eq!(env.get(innermost, &"a".to_string()), Some(Object::Int(10)));
    assert_eq!(env.get(other, &"a".to_string()), Some(Object::Int(1)));
    assert_eq!(env.get(innermost, &"b".to_string()), Some(Object::Int(2)));
    assert_eq!(env.get(innermost, &"c".to_string()), Some(Object::Int(30)));
    assert_eq!(env.get(inner, &"c".to_string()), None);
    assert_eq!(env.get(0, &"zz".to_string()), None);
    env.set(0, "b".to_string(), Object::Bool(true));
    assert_eq!(env.get(innermost, &"b".to_string()), Some(Object::Bool(true)));
}

#[test]
fn leaves_of_evaluation() {
    let env = Env::new();
    assert_eq!(eval_int(&token(TokenType::Int("12".to_string()))), Ok(Object::Int(12)));
    assert_eq!(
        eval_int(&token(TokenType::Int("x".to_string()))),
        Err(eval_err(
            "invalid digit found in string".to_string(),
            token(TokenType::Int("x".to_string()))
        ))
    );
    assert_eq!(
        eval_int(&token(TokenType::Int(String::new()))),
        Err(eval_err(
            "cannot parse integer from empty string".to_string(),
            token(TokenType::Int(String::new()))
        ))
    );
    assert_eq!(
        eval_int(&token(TokenType::True)),
        Err(EvalError { issue: "Expected Integer".to_string(), token: token(TokenType::True) })
    );
    assert_eq!(eval_bool(&token(TokenType::True)), Ok(Object::Bool(true)));
    assert_eq!(eval_bool(&token(TokenType::False)), Ok(Object::Bool(false)));
    assert_eq!(
        eval_bool(&token(TokenType::Let)),
        Err(EvalError { issue: "Expected boolean".to_string(), token: token(TokenType::Let) })
    );
    assert_eq!(
        eval_ident(&token(TokenType::Let), 0, &env),
        Err(EvalError { issue: "Expected identifier".to_string(), token: token(TokenType::Let) })
    );
    assert_eq!(
        eval_unary(&token(TokenType::Slash), Object::Int(1)),
        Err(EvalError {
            issue: "Invalid unary operator".to_string(),
            token: token(TokenType::Slash)
        })
    );
    assert_eq!(
        eval_binary(&token(TokenType::Bang), Object::Int(1), Object::Int(2)),
        Err(EvalError {
            issue: "Invalid binary operator".to_string(),
            token: token(TokenType::Bang)
        })
    );
    assert_eq!(
        eval_unary(&token(TokenType::Minus), Object::Int(isize::MIN)),
        Err(EvalError { issue: "Integer overflow".to_string(), token: token(TokenType::Minus) })
    );
}

#[test]
fn evaluation_of_trees_built_by_hand() {
    let mut env = Env::new();
    let sum = ExpressionNode::from(BinaryOperator::new(
        token(TokenType::Plus),
        ExpressionNode::from(Int::new(token(TokenType::Int("1".to_string())))),
        ExpressionNode::from(UnaryOperator::new(token(TokenType::Minus), number("3"))),
    ));
    assert_eq!(eval(&Node::Expression(sum.clone()), 0, &mut env, 10), Ok(Object::Int(-2)));
    let bind = StatementNode::from(LetStatement::new(
        token(TokenType::Let),
        Ident::new(token(TokenType::Ident("x".to_string()))),
        sum.clone(),
    ));
    assert_eq!(eval(&Node::Statement(bind.clone()), 0, &mut env, 10), Ok(Object::Null));
    assert_eq!(env.get(0, &"x".to_string()), Some(Object::Int(-2)));
    let back = StatementNode::from(ReturnStatement::new(token(TokenType::Return), sum.clone()));
    assert_eq!(
        eval(&Node::Statement(back.clone()), 0, &mut env, 10),
        Ok(Object::Return(Box::new(Object::Int(-2))))
    );
    let mut program = Program::new();
    program.add_statement(bind);
    program.add_statement(back);
    program.add_statement(StatementNode::from(ExpressionStatement::new(number("9"))));
    assert_eq!(eval(&Node::Program(program.clone()), 0, &mut env, 10), Ok(Object::Int(-2)));
    assert_eq!(program.clone(), program);

    let choice = ExpressionNode::from(If::new(
        token(TokenType::If),
        ExpressionNode::from(Bool::new(token(TokenType::False))),
        Block::new(vec![StatementNode::Expression(number("1"))]),
        Some(Block::new(vec![StatementNode::Expression(number("2"))])),
    ));
    assert_eq!(eval(&Node::Expression(choice), 0, &mut env, 10), Ok(Object::Int(2)));

    let identity = ExpressionNode::from(Function::new(
        token(TokenType::Function),
        vec![Ident::new(token(TokenType::Ident("a".to_string())))],
        Block::new(vec![StatementNode::Expression(ExpressionNode::from(Ident::new(
            token(TokenType::Ident("a".to_string())),
        )))]),
    ));
    let call = ExpressionNode::from(FunctionCall::new(
        token(TokenType::Lparen),
        identity,
        vec![number("5")],
    ));
    assert_eq!(eval(&Node::Expression(call.clone()), 0, &mut env, 10), Ok(Object::Int(5)));
    assert!(eval(&Node::Expression(call), 0, &mut env, 0).is_err());
    let block = ExpressionNode::from(Block::new(vec![StatementNode::Expression(number("4"))]));
    assert_eq!(eval(&Node::Expression(block), 0, &mut env, 10), Ok(Object::Int(4)));
}

#[test]
fn trees_with_the_wrong_tokens_fail_without_panic() {
    let mut env = Env::new();
    let bad_let = StatementNode::Let(
        token(TokenType::Let),
        Ident::new(token(TokenType::Int("1".to_string()))),
        number("2"),
    );
    assert_eq!(
        eval(&Node::Statement(bad_let), 0, &mut env, 10),
        Err(EvalError {
            issue: "Expected identifier".to_string(),
            token: token(TokenType::Int("1".to_string()))
        })
    );
    let bad_param = ExpressionNode::FunctionCall(
        token(TokenType::Lparen),
        Box::new(ExpressionNode::Function(
            token(TokenType::Function),
            vec![Ident::new(token(TokenType::True))],
            Block::new(vec![]),
        )),
        vec![number("1")],
    );
    assert_eq!(
        eval(&Node::Expression(bad_param), 0, &mut env, 10),
        Err(EvalError {
            issue: "Expected identifier".to_string(),
            token: token(TokenType::True)
        })
    );
    let stray = ExpressionNode::FunctionCall(
        token(TokenType::Lparen),
        Box::new(ExpressionNode::Ident(token(TokenType::Ident("f".to_string())))),
        vec![],
    );
    let mut other = Env::new();
    other.set(
        0,
        "f".to_string(),
        Object::Function(token(TokenType::Function), vec![], Block::new(vec![]), 7),
    );
    assert_eq!(
        eval(&Node::Expression(stray), 0, &mut other, 10),
        Err(EvalError {
            issue: "Function belongs to no scope".to_string(),
            token: token(TokenType::Function)
        })
    );
}

#[test]
fn identifier_name() {
    let id = Ident::new(token(TokenType::Ident("name".to_string())));
    assert_eq!(id.get_string(), "name");
    assert_eq!(id.clone(), id);
}

#[test]
fn token_sources() {
    let a = Token::new(TokenType::Let, (0, 3));
    let b = Token::new(TokenType::Assign, (4, 5));
    assert_eq!(reversed(vec![a.clone(), b.clone()]), vec![b.clone(), a.clone()]);
    assert_eq!(reversed(vec![]), Vec::<Token>::new());
    let mut s = TokenSource::from_tokens(vec![a.clone(), b.clone()]);
    assert_eq!(s.next(), Some(a.clone()));
    assert_eq!(s.next(), Some(b));
    assert_eq!(s.next(), None);
    assert_eq!(s.next(), None);
    let mut s = TokenSource::from_lexer(interpreter::lexer::Lexer::from_string("let".to_string()));
    assert_eq!(s.next(), Some(a));
    assert_eq!(s.next(), None);
}
