use interpreter::bytecode::Bytecode;
use interpreter::emitter::Emitter;
use interpreter::evaluation::eval_program;
use interpreter::lexer::Lexer;
use interpreter::object::Object;
use interpreter::parser::Parser;

/// Runs the bytes of a program on a small stack machine and returns the
/// value that was discarded last, or the issue that stopped it.
fn run(bytecode: &Bytecode) -> Result<Object, String> {
    let code = &bytecode.instructions;
    let mut pc = 0usize;
    let mut stack: Vec<Object> = Vec::new();
    let mut globals: std::collections::HashMap<u16, Object> = std::collections::HashMap::new();
    let mut last = Object::Null;
    let short = |at: usize| u16::from_be_bytes([code[at], code[at + 1]]);
    let long = |at: usize| {
        let mut b = [0u8; 8];
        b.copy_from_slice(&code[at..at + 8]);
        u64::from_be_bytes(b) as usize
    };
    while pc < code.len() {
        let op = code[pc];
        match op {
            1 => {
                stack.push(bytecode.constants[short(pc + 1) as usize].clone());
                pc += 3;
            }
            2 => {
                last = stack.pop().unwrap();
                pc += 1;
            }
            3 => {
                let v = stack.pop().unwrap();
                stack.push(Object::from_bool(!v.into_bool()));
                pc += 1;
            }
            4 | 5 => {
                let v = stack.pop().unwrap();
                let r = match (op, v) {
                    (4, Object::Int(i)) => Object::Int(i),
                    (5, Object::Int(i)) => match i.checked_neg() {
                        Some(n) => Object::Int(n),
                        None => return Err("Integer overflow".to_string()),
                    },
                    (4, _) => {
                        return Err(
                            "Operand for the Unary Operator + should be an integer".to_string()
                        )
                    }
                    _ => {
                        return Err(
                            "Operand for the Unary Operator - should be an integer".to_string()
                        )
                    }
                };
                stack.push(r);
                pc += 1;
            }
            6..=13 => {
                let r = stack.pop().unwrap();
                let l = stack.pop().unwrap();
                let v = match op {
                    6 => l.add(r),
                    7 => l.sub(r),
                    8 => l.mul(r),
                    9 => l.div(r),
                    10 => l.eq(r),
                    11 => l.not_eq(r),
                    12 => l.gt(r),
                    _ => l.lt(r),
                }?;
                stack.push(v);
                pc += 1;
            }
            14 => {
                pc = long(pc + 1);
            }
            15 => {
                let v = stack.pop().unwrap();
                if v.into_bool() {
                    pc += 9;
                } else {
                    pc = long(pc + 1);
                }
            }
            16 => {
                let v = stack.pop().unwrap();
                globals.insert(short(pc + 1), v);
                pc += 3;
            }
            17 => {
                stack.push(globals.get(&short(pc + 1)).unwrap().clone());
                pc += 3;
            }
            other => return Err(format!("Unsupported instruction {}", other)),
        }
    }
    assert!(stack.is_empty());
    Ok(last)
}

fn both(input: &str) -> (Object, Result<Object, String>) {
    let parse = || {
        let l = Lexer::from_string(input.to_string());
        let mut p = Parser::new(l);
        p.parse_program().unwrap()
    };
    let evaluated = eval_program(parse());
    let mut e = Emitter::new();
    let program = parse();
    assert!(e.can_compile(&program));
    e.compile_program(program);
    (evaluated, run(&e.emit()))
}

fn agree(input: &str, expected: Object) {
    let (evaluated, ran) = both(input);
    assert_eq!(evaluated, expected);
    assert_eq!(ran, Ok(expected));
}

fn fail_alike(input: &str, issue: &str) {
    let (evaluated, ran) = both(input);
    match evaluated {
        Object::Error(message) => assert!(message.starts_with(&format!("{} @ ", issue))),
        other => panic!("expected an error, got {:?}", other),
    }
    assert_eq!(ran, Err(issue.to_string()));
}

#[test]
fn evaluator_and_machine_agree_on_arithmetic() {
    agree("3 + 4 * 5", Object::Int(23));
    agree("3 + 4 * 5 == 3 * 1 + 4 * 5", Object::Bool(true));
    agree("-5478 / 7", Object::Int(-782));
    agree("10 - 2 - 3", Object::Int(5));
    agree("!5", Object::Bool(false));
    agree("+7", Object::Int(7));
    agree("1 < 2 != 2 > 3", Object::Bool(true));
}

#[test]
fn evaluator_and_machine_agree_on_globals() {
    agree("let five = 5; let fifteen = 15; fifteen * (2 + five)", Object::Int(105));
    agree("let a = 1; let a = a + 1; a", Object::Int(2));
    agree("let a = 1; let b = a == 1; b", Object::Bool(true));
}

#[test]
fn evaluator_and_machine_agree_on_if_else() {
    agree("if 5 > 3 { 89 + 41 } else { 98 - 87 }", Object::Int(130));
    agree("if 5 < 3 { 89 + 41 } else { 98 - 87 }", Object::Int(11));
    agree("let x = 4; if x > 1 { 1; x * 2 } else { 0 }", Object::Int(8));
    agree(
        "let x = 4; (if x > 5 { 1 } else { if x > 3 { 2 } else { 3 } }) * 10",
        Object::Int(20),
    );
}

#[test]
fn evaluator_and_machine_agree_on_blocks() {
    agree("{ let e = 42; e + 32 }", Object::Int(74));
    agree("let d = { let e = 42; e + 32 }; d", Object::Int(74));
    agree("let d = { 1; 2 } * { let f = 3; f + 1 }; d + f", Object::Int(11));
    agree("if true { { 5 } } else { 6 }", Object::Int(5));
}

#[test]
fn evaluator_and_machine_fail_alike() {
    fail_alike("true + 1", "Addition requires that both operands are integers");
    fail_alike("1; 2 / 0", "Division by zero");
    fail_alike("-true", "Operand for the Unary Operator - should be an integer");
    fail_alike(
        "1 == true",
        "==/!= operator is not valid for types: Int(1), Bool(true)",
    );
    fail_alike(
        "if 1 > 0 { 1 + true } else { 2 }",
        "Addition requires that both operands are integers",
    );
}
