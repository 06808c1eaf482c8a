use interpreter::evaluation::{eval_program, eval_program_within};
use interpreter::lexer::Lexer;
use interpreter::object::Object;
use interpreter::parser::Parser;

fn run(input: &str) -> Object {
    let l = Lexer::from_string(input.to_string());
    let mut p = Parser::new(l);
    let program = p.parse_program().unwrap();
    eval_program(program)
}

fn message(o: Object) -> String {
    match o {
        Object::Error(m) => m,
        other => panic!("expected an error, got {:?}", other),
    }
}

#[test]
fn literals_evaluate_to_themselves() {
    assert_eq!(run("5"), Object::Int(5));
    assert_eq!(run("true"), Object::Bool(true));
    assert_eq!(run("false;"), Object::Bool(false));
}

#[test]
fn empty_program_is_null() {
    assert_eq!(run(""), Object::Null);
    assert_eq!(run("let a = 1;"), Object::Null);
}

#[test]
fn precedence_of_product_over_sum_over_equality() {
    assert_eq!(run("3 + 4 * 5"), Object::Int(23));
    assert_eq!(run("3 * 1 + 4 * 5"), Object::Int(23));
    assert_eq!(run("3 + 4 * 5 == 3 * 1 + 4 * 5"), Object::Bool(true));
}

#[test]
fn comparison_binds_tighter_than_equality() {
    assert_eq!(run("5 < 10 == true"), Object::Bool(true));
    assert_eq!(run("true == 5 > 10"), Object::Bool(false));
}

#[test]
fn parentheses_override_precedence() {
    assert_eq!(
        run("let five = 5; let fifteen = 15; fifteen * (2 + five)"),
        Object::Int(105)
    );
    assert_eq!(run("let five = 5; let fifteen = 15; fifteen * 2 + five"), Object::Int(35));
}

#[test]
fn operators_of_one_precedence_group_to_the_left() {
    assert_eq!(run("10 - 2 - 3"), Object::Int(5));
    assert_eq!(run("10 - (2 - 3)"), Object::Int(11));
    assert_eq!(run("100 / 10 / 5"), Object::Int(2));
    assert_eq!(run("2 - 3 + 4"), Object::Int(3));
    assert_eq!(run("8 / 4 * 2"), Object::Int(4));
}

#[test]
fn closures_capture_their_own_scope() {
    let src = "
        let newAdder = fn(x) { fn(y) { x + y } };
        let addTwo = newAdder(2);
        addTwo(3);
    ";
    assert_eq!(run(src), Object::Int(5));
    let src = "
        let newAdder = fn(x) { fn(y) { x + y } };
        let addTwo = newAdder(2);
        addTwo(3);
        let addThree = newAdder(3);
        addThree(10);
    ";
    assert_eq!(run(src), Object::Int(13));
    assert_eq!(run("let newAdder = fn(x) { fn(y) { x + y } }; newAdder(2)(3)"), Object::Int(5));
    let src = "
        let newAdder = fn(x) { fn(y) { x + y } };
        let addTwo = newAdder(2);
        let addThree = newAdder(3);
        addTwo(3) * 100 + addThree(10)
    ";
    assert_eq!(run(src), Object::Int(513));
}

#[test]
fn scoping_is_lexical() {
    let src = "
        let x = 1;
        let f = fn() { x };
        let g = fn(x) { f() };
        g(2)
    ";
    assert_eq!(run(src), Object::Int(1));
}

#[test]
fn closure_sees_later_bindings_of_its_scope() {
    let src = "
        let f = fn() { y };
        let y = 7;
        f()
    ";
    assert_eq!(run(src), Object::Int(7));
}

#[test]
fn block_has_the_value_of_its_last_statement() {
    assert_eq!(run("{ let e = 42; e + 32 }"), Object::Int(74));
    assert_eq!(run("let d = { let e = 42; e + 32 }; d"), Object::Int(74));
    assert_eq!(run("{ }"), Object::Null);
}

#[test]
fn arity_mismatch_is_an_error() {
    let m = message(run("let f = fn(a, b) { a + b }; f(1, 2, 3)"));
    assert_eq!(m, "Incorrect number of arguments passed, Got: 3, Expected: 2 @ (8, 10)");
    let m = message(run("fn(a, b, c) { a }(1)"));
    assert_eq!(m, "Incorrect number of arguments passed, Got: 1, Expected: 3 @ (0, 2)");
}

#[test]
fn type_errors_are_error_objects() {
    assert_eq!(
        message(run("true + 1")),
        "Addition requires that both operands are integers @ (5, 6)"
    );
    assert_eq!(
        message(run("1 - true")),
        "Subtraction requires that both operands are integers @ (2, 3)"
    );
    assert_eq!(
        message(run("true * true")),
        "Multiplication requires that both operands are integers @ (5, 6)"
    );
    assert_eq!(
        message(run("1 / false")),
        "Division requires that both operands are integers @ (2, 3)"
    );
    assert_eq!(
        message(run("1 == true")),
        "==/!= operator is not valid for types: Int(1), Bool(true) @ (2, 4)"
    );
    assert_eq!(
        message(run("1 != false")),
        "==/!= operator is not valid for types: Int(1), Bool(false) @ (2, 4)"
    );
    assert_eq!(
        message(run("true > 1")),
        ">/< operator is not valid for types: Bool(true), Int(1) @ (5, 6)"
    );
    assert_eq!(
        message(run("-5 < {}")),
        ">/< operator is not valid for types: Int(-5), Null @ (3, 4)"
    );
    assert_eq!(
        message(run("-true")),
        "Operand for the Unary Operator - should be an integer @ (0, 1)"
    );
    assert_eq!(
        message(run("+true")),
        "Operand for the Unary Operator + should be an integer @ (0, 1)"
    );
}

#[test]
fn equality_of_like_values() {
    assert_eq!(run("1 == 1"), Object::Bool(true));
    assert_eq!(run("1 != 1"), Object::Bool(false));
    assert_eq!(run("true == false"), Object::Bool(false));
    assert_eq!(run("true != false"), Object::Bool(true));
    assert_eq!(run("{} == {}"), Object::Bool(true));
    assert_eq!(run("{} != {}"), Object::Bool(false));
}

#[test]
fn bang_negates_truthiness() {
    assert_eq!(run("!true"), Object::Bool(false));
    assert_eq!(run("!false"), Object::Bool(true));
    assert_eq!(run("!5"), Object::Bool(false));
    assert_eq!(run("!0"), Object::Bool(false));
    assert_eq!(run("!{}"), Object::Bool(true));
    assert_eq!(run("!!{}"), Object::Bool(false));
}

#[test]
fn unary_sign() {
    assert_eq!(run("-5"), Object::Int(-5));
    assert_eq!(run("+5"), Object::Int(5));
    assert_eq!(run("--5"), Object::Int(5));
}

#[test]
fn division_rounds_towards_zero() {
    assert_eq!(run("7 / 2"), Object::Int(3));
    assert_eq!(run("-7 / 2"), Object::Int(-3));
    assert_eq!(run("7 / -2"), Object::Int(-3));
    assert_eq!(run("-7 / -2"), Object::Int(3));
    assert_eq!(run("-5478 / 7"), Object::Int(-782));
}

#[test]
fn division_by_zero_is_an_error() {
    assert_eq!(message(run("1 / 0")), "Division by zero @ (2, 3)");
}

#[test]
fn overflow_is_an_error() {
    let max = isize::MAX;
    assert_eq!(run(&format!("{}", max)), Object::Int(max));
    let digits = format!("{}", max).len();
    assert_eq!(
        message(run(&format!("{} + 1", max))),
        format!("Integer overflow @ ({}, {})", digits + 1, digits + 2)
    );
    let m = message(run(&format!("{} * 2", max)));
    assert!(m.starts_with("Integer overflow @ "));
    let m = message(run(&format!("-{} - 2", max)));
    assert!(m.starts_with("Integer overflow @ "));
    let m = message(run(&format!("(-{} - 1) / -1", max)));
    assert!(m.starts_with("Integer overflow @ "));
    let m = message(run(&format!("-(-{} - 1)", max)));
    assert!(m.starts_with("Integer overflow @ "));
}

#[test]
fn literal_out_of_range_is_an_error() {
    let m = message(run("99999999999999999999999999"));
    assert_eq!(m, "number too large to fit in target type @ (0, 26)");
    let expected = "99999999999999999999999999".parse::<isize>().unwrap_err().to_string();
    assert!(m.starts_with(&expected));
}

#[test]
fn unknown_identifier_is_an_error() {
    assert_eq!(message(run("foo")), "Failed to fetch the identifier @ (0, 3)");
    assert_eq!(message(run("let a = 1; a + b")), "Failed to fetch the identifier @ (15, 16)");
}

#[test]
fn calling_a_non_function_is_an_error() {
    assert_eq!(message(run("5(1)")), "Can't call a non function @ (1, 2)");
}

#[test]
fn if_else_chooses_one_branch() {
    assert_eq!(run("if 5 > 3 { 89 + 41 } else { 98 - 87 }"), Object::Int(130));
    assert_eq!(run("if 5 < 3 { 89 + 41 } else { 98 - 87 }"), Object::Int(11));
    assert_eq!(run("if 5 < 3 { 1 }"), Object::Null);
    assert_eq!(run("if 40 + 50 { true } else { 80 }"), Object::Bool(true));
    assert_eq!(run("if {} { 1 } else { 2 }"), Object::Int(2));
}

#[test]
fn return_leaves_all_blocks_around_it() {
    let src = "
        if 6 > 3 {
            if 5 > 3 {
                return 1
            } else {
                return 2
            }
        } else {
            return 3
        }
    ";
    assert_eq!(run(src), Object::Int(1));
    let src = "
        if (10 < 1) {
            if (10 < 1) {
                return 10;
            }
            return 1;
        }
        return 4;
    ";
    assert_eq!(run(src), Object::Int(4));
    assert_eq!(run("return 72 * 43; -5478/7;"), Object::Int(3096));
    assert_eq!(run("1; return 2; 3"), Object::Int(2));
}

#[test]
fn return_ends_only_the_function_that_holds_it() {
    let src = "
        let f = fn(x) { if x > 0 { return 1; } return 2; };
        f(5) + f(0) * 10
    ";
    assert_eq!(run(src), Object::Int(21));
}

#[test]
fn return_mark_is_never_handed_out() {
    assert_eq!(run("return { return 1 }"), Object::Int(1));
    assert_eq!(run("fn() { return { return 7 } }()"), Object::Int(7));
}

#[test]
fn function_call_with_trailing_comma() {
    let src = "
        let f = fn(a, b, c) {
            let d = a+b-c;
            d * 2
        };
        f(45,54,68,)
    ";
    assert_eq!(run(src), Object::Int(62));
    assert_eq!(run("fn(b, c) { b + c }(41, 98)"), Object::Int(139));
}

#[test]
fn function_literal_is_a_function_object() {
    match run("fn(x) { x }") {
        Object::Function(token, params, body, scope) => {
            assert_eq!(token.span, (0, 2));
            assert_eq!(params.len(), 1);
            assert_eq!(params[0].get_string(), "x");
            assert_eq!(body.statements.len(), 1);
            assert_eq!(scope, 0);
        }
        other => panic!("expected a function, got {:?}", other),
    }
}

#[test]
fn runaway_recursion_is_an_error() {
    let m = message(run("let f = fn(x) { f(x + 1) }; f(0)"));
    assert_eq!(m, "Maximum call depth exceeded @ (17, 18)");
}

#[test]
fn recursion_within_the_limit() {
    let src = "
        let sum = fn(n) { if n == 0 { 0 } else { n + sum(n - 1) } };
        sum(100)
    ";
    assert_eq!(run(src), Object::Int(5050));
}

#[test]
fn depth_limit_counts_nested_calls() {
    let src = "let f = fn(n) { if n == 0 { 0 } else { f(n - 1) } }; f(3)";
    let parse = |s: &str| {
        let l = Lexer::from_string(s.to_string());
        let mut p = Parser::new(l);
        p.parse_program().unwrap()
    };
    assert_eq!(eval_program_within(parse(src), 4), Object::Int(0));
    assert!(matches!(eval_program_within(parse(src), 3), Object::Error(_)));
    assert!(matches!(eval_program_within(parse("fn() { 1 }()"), 0), Object::Error(_)));
    assert_eq!(eval_program_within(parse("fn() { 1 }()"), 1), Object::Int(1));
}

#[test]
fn let_rebinds_in_the_same_scope() {
    assert_eq!(run("let a = 1; let a = a + 1; a"), Object::Int(2));
}

#[test]
fn parameters_shadow_outer_names() {
    assert_eq!(run("let a = 1; let f = fn(a) { a * 10 }; f(5) + a"), Object::Int(51));
}

#[test]
fn let_in_a_block_binds_in_the_enclosing_scope() {
    assert_eq!(run("{ let e = 42; } e"), Object::Int(42));
}

#[test]
fn let_in_a_function_stays_in_its_call() {
    assert_eq!(
        message(run("let f = fn() { let inner = 3; inner }; f(); inner")),
        "Failed to fetch the identifier @ (44, 49)"
    );
}
