use interpreter::ast::{ExpressionNode, Ident, Program, StatementNode};
use interpreter::bytecode::{Bytecode, Instruction};
use interpreter::compilation::CompileIssue;
use interpreter::emitter::{CompilationScope, CompileError, Emitter, Scope, SymbolTable};
use interpreter::token::{Token, TokenType};
use interpreter::lexer::Lexer;
use interpreter::object::Object;
use interpreter::parser::Parser;

fn parse(input: &str) -> Program {
    let l = Lexer::from_string(input.to_string());
    let mut p = Parser::new(l);
    p.parse_program().unwrap()
}

fn compile(input: &str) -> Bytecode {
    let program = parse(input);
    let mut e = Emitter::new();
    assert!(e.can_compile(&program));
    e.compile_program(program);
    e.emit()
}

fn jump(op: u8, offset: u64) -> Vec<u8> {
    let mut v = vec![op];
    v.extend(offset.to_be_bytes());
    v
}

#[test]
fn instruction_bytes() {
    assert_eq!(Instruction::Constant(0x0102).to_bytes(), vec![1, 1, 2]);
    assert_eq!(Instruction::Constant(65535).to_bytes(), vec![1, 255, 255]);
    assert_eq!(Instruction::Pop.to_bytes(), vec![2]);
    assert_eq!(Instruction::Not.to_bytes(), vec![3]);
    assert_eq!(Instruction::UnaryPlus.to_bytes(), vec![4]);
    assert_eq!(Instruction::UnaryMinus.to_bytes(), vec![5]);
    assert_eq!(Instruction::Add.to_bytes(), vec![6]);
    assert_eq!(Instruction::Sub.to_bytes(), vec![7]);
    assert_eq!(Instruction::Mul.to_bytes(), vec![8]);
    assert_eq!(Instruction::Div.to_bytes(), vec![9]);
    assert_eq!(Instruction::Eq.to_bytes(), vec![10]);
    assert_eq!(Instruction::NotEq.to_bytes(), vec![11]);
    assert_eq!(Instruction::GT.to_bytes(), vec![12]);
    assert_eq!(Instruction::LT.to_bytes(), vec![13]);
    assert_eq!(Instruction::Jump(0x0102).to_bytes(), vec![14, 0, 0, 0, 0, 0, 0, 1, 2]);
    assert_eq!(Instruction::JumpNotTruthy(7).to_bytes(), vec![15, 0, 0, 0, 0, 0, 0, 0, 7]);
    assert_eq!(Instruction::SetGlobal(3).to_bytes(), vec![16, 0, 3]);
    assert_eq!(Instruction::GetGlobal(258).to_bytes(), vec![17, 1, 2]);
    assert_eq!(Instruction::ReturnValue.to_bytes(), vec![18]);
    assert_eq!(Instruction::Return.to_bytes(), vec![19]);
    assert_eq!(Instruction::Call.to_bytes(), vec![20]);
}

#[test]
fn operand_bytes_match_the_standard_encoding() {
    for v in [0u16, 1, 255, 256, 0x1234, 65535] {
        let mut expected = vec![16];
        expected.extend(v.to_be_bytes());
        assert_eq!(Instruction::SetGlobal(v).to_bytes(), expected);
    }
    for v in [0usize, 1, 255, 256, 0x01020304, usize::MAX] {
        assert_eq!(Instruction::Jump(v).to_bytes(), jump(14, v as u64));
    }
}

#[test]
fn instruction_is() {
    assert!(Instruction::Pop.is(&Instruction::Pop));
    assert!(!Instruction::Pop.is(&Instruction::Not));
    assert!(Instruction::Jump(3).is(&Instruction::Jump(3)));
    assert!(!Instruction::Jump(3).is(&Instruction::Jump(4)));
    assert!(!Instruction::Jump(3).is(&Instruction::JumpNotTruthy(3)));
}

#[test]
fn empty_program_compiles_to_nothing() {
    let b = compile("");
    assert_eq!(b.instructions, Vec::<u8>::new());
    assert_eq!(b.constants, Vec::<Object>::new());
}

#[test]
fn arithmetic_statement() {
    let b = compile("1 + 2;");
    assert_eq!(b.instructions, vec![1, 0, 0, 1, 0, 1, 6, 2]);
    assert_eq!(b.constants, vec![Object::Int(1), Object::Int(2)]);
}

#[test]
fn every_operator_has_its_instruction() {
    let b = compile("1 - 2; 1 * 2; 1 / 2; 1 == 2; 1 != 2; 1 > 2; 1 < 2; !true; -1; +1;");
    let i = b.instructions;
    assert_eq!(&i[0..8], &[1, 0, 0, 1, 0, 1, 7, 2]);
    assert_eq!(i[14], 8);
    assert_eq!(i[22], 9);
    assert_eq!(i[30], 10);
    assert_eq!(i[38], 11);
    assert_eq!(i[46], 12);
    assert_eq!(i[54], 13);
    assert_eq!(&i[56..61], &[1, 0, 14, 3, 2]);
    assert_eq!(&i[61..66], &[1, 0, 15, 5, 2]);
    assert_eq!(&i[66..71], &[1, 0, 16, 4, 2]);
    assert_eq!(i.len(), 71);
    assert_eq!(b.constants.len(), 17);
    assert_eq!(b.constants[14], Object::Bool(true));
}

#[test]
fn let_defines_slots_in_order() {
    let b = compile("let a = 1; let b = 2; a + b;");
    assert_eq!(
        b.instructions,
        vec![1, 0, 0, 16, 0, 0, 1, 0, 1, 16, 0, 1, 17, 0, 0, 17, 0, 1, 6, 2]
    );
    assert_eq!(b.constants, vec![Object::Int(1), Object::Int(2)]);
}

#[test]
fn redefinition_takes_a_new_slot() {
    let b = compile("let a = 1; let a = 2; a;");
    assert_eq!(
        b.instructions,
        vec![1, 0, 0, 16, 0, 0, 1, 0, 1, 16, 0, 1, 17, 0, 1, 2]
    );
}

fn refusal(input: &str) -> CompileError {
    Emitter::new().check(&parse(input)).unwrap_err()
}

#[test]
fn unresolved_identifier_is_refused() {
    let e = Emitter::new();
    assert!(!e.can_compile(&parse("x;")));
    assert_eq!(
        refusal("x;"),
        CompileError {
            issue: CompileIssue::UnresolvedIdentifier,
            token: Token::new(TokenType::Ident("x".to_string()), (0, 1)),
        }
    );
    assert_eq!(
        refusal("let a = 1; a + b"),
        CompileError {
            issue: CompileIssue::UnresolvedIdentifier,
            token: Token::new(TokenType::Ident("b".to_string()), (15, 16)),
        }
    );
    assert_eq!(
        refusal("let a = a;"),
        CompileError {
            issue: CompileIssue::UnresolvedIdentifier,
            token: Token::new(TokenType::Ident("a".to_string()), (8, 9)),
        }
    );
    assert_eq!(
        refusal("let f = fn() { g }; let g = 1;"),
        CompileError {
            issue: CompileIssue::UnresolvedIdentifier,
            token: Token::new(TokenType::Ident("g".to_string()), (15, 16)),
        }
    );
}

#[test]
fn a_refused_program_leaves_the_compiler_as_it_was() {
    let mut e = Emitter::new();
    assert_eq!(e.try_compile_program(parse("let a = 1;")), Ok(()));
    assert_eq!(
        e.try_compile_program(parse("2; let c = a + b;")),
        Err(CompileError {
            issue: CompileIssue::UnresolvedIdentifier,
            token: Token::new(TokenType::Ident("b".to_string()), (15, 16)),
        })
    );
    assert!(!e.can_compile(&parse("c")));
    assert_eq!(e.try_compile_program(parse("a")), Ok(()));
    let b = e.emit();
    assert_eq!(b.instructions, vec![1, 0, 0, 16, 0, 0, 17, 0, 0, 2]);
    assert_eq!(b.constants, vec![Object::Int(1)]);
}

#[test]
fn names_are_resolved_in_the_order_of_compilation() {
    let e = Emitter::new();
    assert_eq!(e.check(&parse("let a = 1; a")), Ok(()));
    assert_eq!(e.check(&parse("if true { let a = 1; } a")), Ok(()));
    assert_eq!(e.check(&parse("let f = fn() { let inner = 1; }; inner")), Ok(()));
    assert_eq!(e.check(&parse("{ let e = 42; e + 32 }")), Ok(()));
    assert_eq!(e.check(&parse("let a = 1; let b = a + { let c = a; c } * c;")), Ok(()));
    assert!(e.check(&parse("a; let a = 1;")).is_err());
    assert!(e.check(&parse("let b = c + { let c = 1; c };")).is_err());
}

#[test]
fn a_call_with_arguments_is_refused() {
    assert_eq!(
        refusal("let f = fn(x) { 1 }; f(2)"),
        CompileError {
            issue: CompileIssue::CallWithArguments,
            token: Token::new(TokenType::Lparen, (22, 23)),
        }
    );
    assert_eq!(Emitter::new().check(&parse("let f = fn(x) { 1 }; f()")), Ok(()));
}

#[test]
fn a_literal_without_value_is_refused() {
    assert_eq!(
        refusal("1; 99999999999999999999999999"),
        CompileError {
            issue: CompileIssue::InvalidInteger,
            token: Token::new(TokenType::Int("99999999999999999999999999".to_string()), (3, 29)),
        }
    );
}

#[test]
fn trees_with_the_wrong_tokens_are_refused() {
    let t = |k: TokenType| Token::new(k, (1, 2));
    let one = || ExpressionNode::Int(t(TokenType::Int("1".to_string())));
    let check = |e: ExpressionNode| {
        let mut p = Program::new();
        p.add_statement(StatementNode::Expression(e));
        Emitter::new().check(&p).unwrap_err()
    };
    assert_eq!(
        check(ExpressionNode::Ident(t(TokenType::Let))),
        CompileError { issue: CompileIssue::ExpectedIdentifier, token: t(TokenType::Let) }
    );
    assert_eq!(
        check(ExpressionNode::Int(t(TokenType::True))),
        CompileError { issue: CompileIssue::InvalidInteger, token: t(TokenType::True) }
    );
    assert_eq!(
        check(ExpressionNode::Bool(t(TokenType::If))),
        CompileError { issue: CompileIssue::ExpectedBoolean, token: t(TokenType::If) }
    );
    assert_eq!(
        check(ExpressionNode::UnaryOperator(t(TokenType::Slash), Box::new(one()))),
        CompileError { issue: CompileIssue::InvalidOperator, token: t(TokenType::Slash) }
    );
    assert_eq!(
        check(ExpressionNode::BinaryOperator(
            t(TokenType::Bang),
            Box::new(one()),
            Box::new(one())
        )),
        CompileError { issue: CompileIssue::InvalidOperator, token: t(TokenType::Bang) }
    );
    let mut p = Program::new();
    p.add_statement(StatementNode::Let(
        t(TokenType::Let),
        Ident::new(t(TokenType::Int("1".to_string()))),
        one(),
    ));
    assert_eq!(
        Emitter::new().check(&p),
        Err(CompileError {
            issue: CompileIssue::ExpectedIdentifier,
            token: t(TokenType::Int("1".to_string())),
        })
    );
}

#[test]
fn the_pool_and_the_slots_have_limits() {
    let mut source = String::new();
    for _ in 0..65536 {
        source.push_str("1;");
    }
    let full = parse(&source);
    let mut e = Emitter::new();
    assert_eq!(e.check(&full), Ok(()));
    e.compile_program(full);
    assert_eq!(
        e.check(&parse("  2")),
        Err(CompileError {
            issue: CompileIssue::TooManyConstants,
            token: Token::new(TokenType::Int("2".to_string()), (2, 3)),
        })
    );
    let b = e.emit();
    assert_eq!(b.constants.len(), 65536);
    assert_eq!(&b.instructions[b.instructions.len() - 4..], &[1, 255, 255, 2]);

    let mut source = String::new();
    for _ in 0..65535 {
        source.push_str("let a = true;");
    }
    let full = parse(&source);
    let mut e = Emitter::new();
    assert_eq!(e.check(&full), Ok(()));
    e.compile_program(full);
    assert_eq!(
        e.check(&parse("let b = a;")),
        Err(CompileError {
            issue: CompileIssue::TooManyDefinitions,
            token: Token::new(TokenType::Ident("b".to_string()), (4, 5)),
        })
    );
    assert_eq!(e.check(&parse("a")), Ok(()));
    let b = e.emit();
    assert_eq!(&b.instructions[b.instructions.len() - 3..], &[16, 255, 254]);
}

#[test]
fn a_block_leaves_its_last_value() {
    let b = compile("{ let e = 42; e + 32 }");
    assert_eq!(
        b.instructions,
        vec![1, 0, 0, 16, 0, 0, 17, 0, 0, 1, 0, 1, 6, 2]
    );
    assert_eq!(b.constants, vec![Object::Int(42), Object::Int(32)]);
    let b = compile("let d = { let e = 42; e + 32 };");
    assert_eq!(
        b.instructions,
        vec![1, 0, 0, 16, 0, 0, 17, 0, 0, 1, 0, 1, 6, 16, 0, 1]
    );
    let b = compile("{ 1; 2; }");
    assert_eq!(b.instructions, vec![1, 0, 0, 2, 1, 0, 1, 2]);
}

#[test]
fn an_empty_block_takes_nothing_from_the_statement_before_it() {
    let b = compile("1; {}");
    assert_eq!(b.instructions, vec![1, 0, 0, 2, 2]);
    let b = compile("1; { let a = 2; }");
    assert_eq!(b.instructions, vec![1, 0, 0, 2, 1, 0, 1, 16, 0, 0, 2]);
}

#[test]
fn if_without_else_jumps_over_the_consequence() {
    let b = compile("if true { 10 }; 20;");
    let mut expected = vec![1, 0, 0];
    expected.extend(jump(15, 15));
    expected.extend([1, 0, 1]);
    expected.extend([2]);
    expected.extend([1, 0, 2, 2]);
    assert_eq!(b.instructions, expected);
    assert_eq!(b.constants, vec![Object::Bool(true), Object::Int(10), Object::Int(20)]);
}

#[test]
fn if_else_jump_operands_are_byte_offsets() {
    let b = compile("if 1 < 2 { 10 } else { 20 }");
    let mut expected = vec![1, 0, 0, 1, 0, 1, 13];
    expected.extend(jump(15, 28));
    expected.extend([1, 0, 2]);
    expected.extend(jump(14, 31));
    expected.extend([1, 0, 3]);
    expected.extend([2]);
    assert_eq!(b.instructions, expected);
    assert_eq!(
        b.constants,
        vec![Object::Int(1), Object::Int(2), Object::Int(10), Object::Int(20)]
    );
}

#[test]
fn if_with_empty_consequence_jumps_to_the_next_instruction() {
    let b = compile("if true { }");
    let mut expected = vec![1, 0, 0];
    expected.extend(jump(15, 12));
    expected.extend([2]);
    assert_eq!(b.instructions, expected);
}

#[test]
fn only_the_last_pop_of_a_branch_is_elided() {
    let b = compile("if true { 1; 2 } else { 3; 4; }");
    let mut expected = vec![1, 0, 0];
    expected.extend(jump(15, 28));
    expected.extend([1, 0, 1, 2, 1, 0, 2]);
    expected.extend(jump(14, 35));
    expected.extend([1, 0, 3, 2, 1, 0, 4]);
    expected.extend([2]);
    assert_eq!(b.instructions, expected);
}

#[test]
fn function_literal_becomes_a_constant() {
    let b = compile("fn(x) { 5 + 10 }");
    assert_eq!(b.instructions, vec![1, 0, 2, 2]);
    assert_eq!(
        b.constants,
        vec![
            Object::Int(5),
            Object::Int(10),
            Object::CompiledFunction(vec![1, 0, 0, 1, 0, 1, 6, 18]),
        ]
    );
}

#[test]
fn function_body_return_forms() {
    let b = compile("fn() { }");
    assert_eq!(b.constants, vec![Object::CompiledFunction(vec![19])]);
    let b = compile("fn() { return 5; }");
    assert_eq!(
        b.constants,
        vec![Object::Int(5), Object::CompiledFunction(vec![1, 0, 0, 18])]
    );
    let b = compile("fn() { let a = 5; }");
    assert_eq!(
        b.constants,
        vec![Object::Int(5), Object::CompiledFunction(vec![1, 0, 0, 16, 0, 0, 19])]
    );
}

#[test]
fn jumps_in_a_function_are_offsets_into_its_own_bytes() {
    let b = compile("1; 2; 3; fn() { if true { 10 } else { 20 } }");
    match &b.constants[6] {
        Object::CompiledFunction(code) => {
            let mut expected = vec![1, 0, 3];
            expected.extend(jump(15, 24));
            expected.extend([1, 0, 4]);
            expected.extend(jump(14, 27));
            expected.extend([1, 0, 5]);
            expected.extend([18]);
            assert_eq!(code, &expected);
        }
        other => panic!("expected compiled function, got {:?}", other),
    }
}

#[test]
fn call_compiles_the_callee_and_call() {
    let b = compile("let y = fn() { return 5 + 10; } let z = y();");
    assert_eq!(
        b.instructions,
        vec![1, 0, 2, 16, 0, 0, 17, 0, 0, 20, 16, 0, 1]
    );
}

#[test]
fn sample_program_compiles() {
    let b = compile(
        r#"
        let x = true;
        if x {
            2;
        } else {
            4;
        }
        let y = fn() { return 5 + 10; }
        let z = y();
        "#,
    );
    assert_eq!(b.constants.len(), 6);
    assert_eq!(b.instructions[0..6], [1, 0, 0, 16, 0, 0]);
}

#[test]
fn compile_twice_continues_the_same_state() {
    let mut e = Emitter::new();
    let first = parse("let a = 1;");
    assert!(e.can_compile(&first));
    e.compile_program(first);
    let second = parse("a;");
    assert!(e.can_compile(&second));
    e.compile_program(second);
    let b = e.emit();
    assert_eq!(b.instructions, vec![1, 0, 0, 16, 0, 0, 17, 0, 0, 2]);
}

#[test]
fn literal_out_of_range_is_not_accepted() {
    let e = Emitter::new();
    assert!(!e.can_compile(&parse("99999999999999999999999999")));
    assert!(e.can_compile(&parse("9")));
}

#[test]
fn symbol_table_defines_and_resolves() {
    let mut t = SymbolTable::new();
    assert!(t.has_room());
    assert!(t.resolve(&"a".to_string()).is_none());
    assert_eq!(t.define("a".to_string()), 0);
    assert_eq!(t.define("b".to_string()), 1);
    assert_eq!(t.resolve(&"a".to_string()).unwrap().index, 0);
    assert_eq!(t.resolve(&"b".to_string()).unwrap().index, 1);
    assert_eq!(t.define("a".to_string()), 2);
    assert_eq!(t.resolve(&"a".to_string()).unwrap().index, 2);
    assert_eq!(t.resolve(&"a".to_string()).unwrap().name, "a");
    assert_eq!(t.resolve(&"b".to_string()).unwrap().name, "b");
    assert_eq!(t.resolve(&"b".to_string()).unwrap().scope, Scope::Global);
}

#[test]
fn scope_emit_resolves_jump_targets() {
    let scope = CompilationScope {
        instructions: vec![
            Instruction::Constant(0),
            Instruction::JumpNotTruthy(2),
            Instruction::Constant(1),
            Instruction::Jump(9),
            Instruction::Pop,
        ],
    };
    let mut expected = vec![1, 0, 0];
    expected.extend(jump(15, 15));
    expected.extend([1, 0, 1]);
    expected.extend(jump(14, 25));
    expected.extend([2]);
    assert_eq!(scope.emit(), expected);
}
