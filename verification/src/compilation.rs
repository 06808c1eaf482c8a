//! What compiling a tree yields: the state of the compiler after each node,
//! as a function of the node and of the state before it.
//!
//! Instructions go to the last of a stack of scopes, one for each function
//! body that is open. All names are global: every `let` takes the next free
//! slot. A name must be defined before it is compiled.

use vstd::prelude::*;
use crate::ast::{ExprView, NodeView, StmtView};
use crate::bytecode::{linearize, Instruction};
use crate::object::ObjectView;
use crate::text::parse_integer;
use crate::token::{TokenKind, TokenView};

verus! {

/// The state of the compiler.
pub ghost struct EmitterView {
    /// The instructions of the function bodies that are open, the innermost
    /// last; the first is the program itself.
    pub scopes: Seq<Seq<Instruction>>,
    pub constants: Seq<ObjectView>,
    /// The slot of each name that is defined.
    pub symbols: Map<Seq<char>, u16>,
    /// The number of definitions so far, which is the next free slot.
    pub definitions: nat,
}

impl EmitterView {
    /// The instructions of the innermost scope.
    pub open spec fn current(self) -> Seq<Instruction> {
        self.scopes.last()
    }

    /// This state with other instructions in the innermost scope.
    pub open spec fn with_current(self, instructions: Seq<Instruction>) -> EmitterView {
        EmitterView { scopes: self.scopes.update(self.scopes.len() - 1, instructions), ..self }
    }

    /// This state after one more instruction.
    pub open spec fn push(self, instruction: Instruction) -> EmitterView {
        self.with_current(self.current().push(instruction))
    }

    /// This state after one more constant and the instruction that pushes
    /// it.
    pub open spec fn add_constant(self, constant: ObjectView) -> EmitterView {
        (EmitterView { constants: self.constants.push(constant), ..self }).push(
            Instruction::Constant(self.constants.len() as u16),
        )
    }

    /// This state without the last instruction, if that is `Pop`: the value
    /// that it would discard stays on the stack.
    pub open spec fn without_trailing_pop(self) -> EmitterView {
        if self.current().len() > 0 && self.current().last() == Instruction::Pop {
            self.with_current(self.current().drop_last())
        } else {
            self
        }
    }

    /// This state without the last instruction, if that is `Pop` and one of
    /// those after the first `start`: the value that it would discard stays
    /// on the stack.
    pub open spec fn elided_after(self, start: nat) -> EmitterView {
        if self.current().len() > start {
            self.without_trailing_pop()
        } else {
            self
        }
    }

    /// This state with the instruction at `index` replaced.
    pub open spec fn patch(self, index: int, instruction: Instruction) -> EmitterView {
        self.with_current(self.current().update(index, instruction))
    }

    /// The number of the last instruction.
    pub open spec fn last_index(self) -> int {
        self.current().len() - 1
    }

    /// This state with `name` defined in the next free slot, and the
    /// instruction that stores into it.
    pub open spec fn define(self, name: Seq<char>) -> EmitterView {
        (EmitterView {
            symbols: self.symbols.insert(name, self.definitions as u16),
            definitions: self.definitions + 1,
            ..self
        }).push(Instruction::SetGlobal(self.definitions as u16))
    }

    /// This state with a new, empty scope.
    pub open spec fn open_scope(self) -> EmitterView {
        EmitterView { scopes: self.scopes.push(Seq::empty()), ..self }
    }

    /// This state with a return at the end of the innermost scope: in place
    /// of a last `Pop` the return of the value that it would discard; after
    /// a last return of a value nothing; else a return without value.
    pub open spec fn with_return(self) -> EmitterView {
        if self.current().len() > 0 && self.current().last() == Instruction::Pop {
            self.without_trailing_pop().push(Instruction::ReturnValue)
        } else if self.current().len() > 0 && self.current().last() == Instruction::ReturnValue {
            self
        } else {
            self.push(Instruction::Return)
        }
    }

    /// Whether this state can come after `before` once a node is compiled:
    /// the same scopes are open, those around the innermost are as they
    /// were, and the innermost has kept the instructions that it had.
    pub open spec fn extends(self, before: EmitterView) -> bool {
        &&& self.scopes.len() == before.scopes.len()
        &&& self.scopes.drop_last() == before.scopes.drop_last()
        &&& before.current().len() <= self.current().len()
        &&& forall|j: int|
            0 <= j < before.current().len() ==> #[trigger] self.current()[j] == before.current()[j]
    }

    /// This state after the innermost scope is closed: its bytes are a new
    /// constant, which the scope around it pushes.
    pub open spec fn close_scope(self) -> EmitterView {
        (EmitterView { scopes: self.scopes.drop_last(), ..self }).add_constant(
            ObjectView::CompiledFunction(linearize(self.current())),
        )
    }
}

/// The state of a compiler that has compiled nothing: the scope of the
/// program is open and empty, and there are no constants and no names.
pub open spec fn initial() -> EmitterView {
    EmitterView {
        scopes: seq![Seq::<Instruction>::empty()],
        constants: Seq::empty(),
        symbols: Map::empty(),
        definitions: 0,
    }
}

/// Whether an instruction, if it pushes a constant, names one of the first
/// `count`.
pub open spec fn fits(instruction: Instruction, count: nat) -> bool {
    match instruction {
        Instruction::Constant(index) => index < count,
        _ => true,
    }
}

/// Whether every instruction that pushes a constant names one of the first
/// `count`.
pub open spec fn constants_in_range(code: Seq<Instruction>, count: nat) -> bool {
    forall|j: int| 0 <= j < code.len() ==> fits(#[trigger] code[j], count)
}

/// Whether in every open scope every instruction that pushes a constant
/// names a constant of the pool.
pub open spec fn scopes_in_range(st: EmitterView) -> bool {
    forall|s: int|
        0 <= s < st.scopes.len() ==> constants_in_range(#[trigger] st.scopes[s], st.constants.len())
}

/// Other instructions in the innermost scope keep the constants in range
/// if they are in range themselves.
pub proof fn lemma_in_range_with_current(st: EmitterView, instructions: Seq<Instruction>)
    requires
        scopes_in_range(st),
        st.scopes.len() >= 1,
        constants_in_range(instructions, st.constants.len()),
    ensures
        scopes_in_range(st.with_current(instructions)),
{
    let after = st.with_current(instructions);
    assert forall|s: int| 0 <= s < after.scopes.len() implies constants_in_range(
        #[trigger] after.scopes[s],
        after.constants.len(),
    ) by {
        if s < st.scopes.len() - 1 {
            assert(after.scopes[s] == st.scopes[s]);
        }
    }
}

/// One more instruction that fits keeps the constants in range.
pub proof fn lemma_in_range_push(st: EmitterView, instruction: Instruction)
    requires
        scopes_in_range(st),
        st.scopes.len() >= 1,
        fits(instruction, st.constants.len()),
    ensures
        scopes_in_range(st.push(instruction)),
{
    assert(constants_in_range(st.scopes[st.scopes.len() - 1], st.constants.len()));
    lemma_in_range_with_current(st, st.current().push(instruction));
}

/// Without its last instruction the innermost scope keeps the constants in
/// range.
pub proof fn lemma_in_range_drop_last(st: EmitterView)
    requires
        scopes_in_range(st),
        st.scopes.len() >= 1,
        st.current().len() > 0,
    ensures
        scopes_in_range(st.with_current(st.current().drop_last())),
{
    assert(constants_in_range(st.scopes[st.scopes.len() - 1], st.constants.len()));
    lemma_in_range_with_current(st, st.current().drop_last());
}

/// Another instruction that fits in place of one keeps the constants in
/// range.
pub proof fn lemma_in_range_patch(st: EmitterView, index: int, instruction: Instruction)
    requires
        scopes_in_range(st),
        st.scopes.len() >= 1,
        0 <= index < st.current().len(),
        fits(instruction, st.constants.len()),
    ensures
        scopes_in_range(st.patch(index, instruction)),
{
    assert(constants_in_range(st.scopes[st.scopes.len() - 1], st.constants.len()));
    lemma_in_range_with_current(st, st.current().update(index, instruction));
}

/// One more constant keeps the constants in range.
pub proof fn lemma_in_range_more_constants(st: EmitterView, constant: ObjectView)
    requires
        scopes_in_range(st),
    ensures
        scopes_in_range(EmitterView { constants: st.constants.push(constant), ..st }),
{
    let after = EmitterView { constants: st.constants.push(constant), ..st };
    assert forall|s: int| 0 <= s < after.scopes.len() implies constants_in_range(
        #[trigger] after.scopes[s],
        after.constants.len(),
    ) by {
        assert(constants_in_range(st.scopes[s], st.constants.len()));
    }
}

/// A new, empty scope keeps the constants in range, and so does closing
/// the innermost scope.
pub proof fn lemma_in_range_scopes(st: EmitterView)
    requires
        scopes_in_range(st),
    ensures
        scopes_in_range(st.open_scope()),
        st.scopes.len() >= 1 ==> scopes_in_range(
            EmitterView { scopes: st.scopes.drop_last(), ..st },
        ),
{
    let opened = st.open_scope();
    assert forall|s: int| 0 <= s < opened.scopes.len() implies constants_in_range(
        #[trigger] opened.scopes[s],
        opened.constants.len(),
    ) by {
        if s < st.scopes.len() {
            assert(opened.scopes[s] == st.scopes[s]);
        }
    }
    if st.scopes.len() >= 1 {
        let closed = EmitterView { scopes: st.scopes.drop_last(), ..st };
        assert forall|s: int| 0 <= s < closed.scopes.len() implies constants_in_range(
            #[trigger] closed.scopes[s],
            closed.constants.len(),
        ) by {
            assert(closed.scopes[s] == st.scopes[s]);
        }
    }
}

/// The instruction of a prefix operator.
pub open spec fn unary_instruction(kind: TokenKind) -> Option<Instruction> {
    match kind {
        TokenKind::Bang => Some(Instruction::Not),
        TokenKind::Minus => Some(Instruction::UnaryMinus),
        TokenKind::Plus => Some(Instruction::UnaryPlus),
        _ => None,
    }
}

/// The instruction of a binary operator.
pub open spec fn binary_instruction(kind: TokenKind) -> Option<Instruction> {
    match kind {
        TokenKind::Plus => Some(Instruction::Add),
        TokenKind::Minus => Some(Instruction::Sub),
        TokenKind::Asterisk => Some(Instruction::Mul),
        TokenKind::Slash => Some(Instruction::Div),
        TokenKind::Eq => Some(Instruction::Eq),
        TokenKind::NotEq => Some(Instruction::NotEq),
        TokenKind::GT => Some(Instruction::GT),
        TokenKind::LT => Some(Instruction::LT),
        _ => None,
    }
}

/// The state after an expression is compiled.
///
/// A literal becomes a constant, and a name the instruction that pushes its
/// global; no instruction stands for a name that has no slot, and the
/// compiler refuses a program that holds one (see `resolved_expression`).
/// An operator follows its operands. A block is its statements
/// without the last `Pop`, so that its last value stays on the stack. An
/// `if` is its condition, a jump over the consequence if the condition does not
/// hold, the consequence and, where there is an alternative, a jump over it
/// and the alternative; both blocks leave their last value on the stack. A
/// function literal is compiled in a scope of its own and becomes a
/// constant. A call, which takes no arguments, is the callee and the
/// instruction `Call`.
pub open spec fn compile_expression(e: ExprView, st: EmitterView) -> EmitterView
    decreases e, 0nat,
{
    match e {
        ExprView::Ident(token) => match token.kind {
            TokenKind::Ident(name) => if st.symbols.contains_key(name) {
                st.push(Instruction::GetGlobal(st.symbols[name]))
            } else {
                st
            },
            _ => st,
        },
        ExprView::Int(token) => match token.kind {
            TokenKind::Int(digits) => match parse_integer(digits) {
                Ok(i) => st.add_constant(ObjectView::Int(i)),
                Err(_) => st,
            },
            _ => st,
        },
        ExprView::Bool(token) => match token.kind {
            TokenKind::True => st.add_constant(ObjectView::Bool(true)),
            TokenKind::False => st.add_constant(ObjectView::Bool(false)),
            _ => st,
        },
        ExprView::Unary(operator, operand) => {
            let after = compile_expression(*operand, st);
            match unary_instruction(operator.kind) {
                Some(instruction) => after.push(instruction),
                None => after,
            }
        },
        ExprView::Binary(operator, lhs, rhs) => {
            let after = compile_expression(*rhs, compile_expression(*lhs, st));
            match binary_instruction(operator.kind) {
                Some(instruction) => after.push(instruction),
                None => after,
            }
        },
        ExprView::Block(statements) => compile_statements(statements, 0, st).elided_after(
            st.current().len(),
        ),
        ExprView::If(_, condition, action, alternate) => {
            let tested = compile_expression(*condition, st).push(Instruction::JumpNotTruthy(0));
            let test = tested.last_index();
            let done = compile_statements(action, 0, tested).without_trailing_pop();
            match alternate {
                None => done.patch(test, Instruction::JumpNotTruthy(done.last_index() as usize)),
                Some(statements) => {
                    let skipped = done.push(Instruction::Jump(0));
                    let skip = skipped.last_index();
                    let other = compile_statements(
                        statements,
                        0,
                        skipped.patch(test, Instruction::JumpNotTruthy(skip as usize)),
                    ).without_trailing_pop();
                    other.patch(skip, Instruction::Jump(other.last_index() as usize))
                },
            }
        },
        ExprView::Function(_, _, body) => compile_statements(
            body,
            0,
            st.open_scope(),
        ).with_return().close_scope(),
        ExprView::Call(_, function, _) => compile_expression(*function, st).push(
            Instruction::Call,
        ),
    }
}

/// The state after a statement is compiled. A `let` stores the value in a
/// new slot, a `return` returns it, and the value of an expression is
/// discarded.
pub open spec fn compile_statement(s: StmtView, st: EmitterView) -> EmitterView
    decreases s, 0nat,
{
    match s {
        StmtView::Let(_, ident, e) => {
            let after = compile_expression(e, st);
            match ident.kind {
                TokenKind::Ident(name) => after.define(name),
                _ => after,
            }
        },
        StmtView::Return(_, e) => compile_expression(e, st).push(Instruction::ReturnValue),
        StmtView::Expression(e) => compile_expression(e, st).push(Instruction::Pop),
    }
}

/// The state after the statements from offset `from` on are compiled.
pub open spec fn compile_statements(statements: Seq<StmtView>, from: nat, st: EmitterView)
    -> EmitterView
    decreases statements, statements.len() - from,
{
    if from >= statements.len() {
        st
    } else {
        compile_statements(statements, from + 1, compile_statement(statements[from as int], st))
    }
}

/// The state after a node is compiled. The value of an expression that stands
/// alone is discarded.
pub open spec fn compile_node(node: NodeView, st: EmitterView) -> EmitterView {
    match node {
        NodeView::Program(statements) => compile_statements(statements, 0, st),
        NodeView::Statement(statement) => compile_statement(statement, st),
        NodeView::Expression(expression) => compile_expression(expression, st).push(
            Instruction::Pop,
        ),
    }
}

/// Whether the compiler accepts the form of an expression: every name is an
/// identifier, every integer literal has a value, every boolean is `true`
/// or `false`, every operator is one of the language, and no call has
/// arguments. The parameters of a function are not compiled and may be
/// anything.
pub open spec fn compilable_expression(e: ExprView) -> bool
    decreases e, 0nat,
{
    match e {
        ExprView::Ident(token) => token.kind is Ident,
        ExprView::Int(token) => match token.kind {
            TokenKind::Int(digits) => parse_integer(digits) is Ok,
            _ => false,
        },
        ExprView::Bool(token) => token.kind is True || token.kind is False,
        ExprView::Unary(operator, operand) => unary_instruction(operator.kind) is Some
            && compilable_expression(*operand),
        ExprView::Binary(operator, lhs, rhs) => binary_instruction(operator.kind) is Some
            && compilable_expression(*lhs) && compilable_expression(*rhs),
        ExprView::Block(statements) => compilable_statements(statements, 0),
        ExprView::If(_, condition, action, alternate) => compilable_expression(*condition)
            && compilable_statements(action, 0) && match alternate {
            Some(statements) => compilable_statements(statements, 0),
            None => true,
        },
        ExprView::Function(_, _, body) => compilable_statements(body, 0),
        ExprView::Call(_, function, args) => args.len() == 0 && compilable_expression(*function),
    }
}

/// Whether the compiler accepts a statement.
pub open spec fn compilable_statement(s: StmtView) -> bool
    decreases s, 0nat,
{
    match s {
        StmtView::Let(_, ident, e) => ident.kind is Ident && compilable_expression(e),
        StmtView::Return(_, e) => compilable_expression(e),
        StmtView::Expression(e) => compilable_expression(e),
    }
}

/// Whether the compiler accepts the statements from offset `from` on.
pub open spec fn compilable_statements(statements: Seq<StmtView>, from: nat) -> bool
    decreases statements, statements.len() - from,
{
    from >= statements.len() || (compilable_statement(statements[from as int])
        && compilable_statements(statements, from + 1))
}

/// The number of constants that an expression adds to the pool: one for
/// each literal and each function literal that is compiled.
pub open spec fn constants_in_expression(e: ExprView) -> nat
    decreases e, 0nat,
{
    match e {
        ExprView::Ident(_) => 0,
        ExprView::Int(token) => match token.kind {
            TokenKind::Int(digits) => if parse_integer(digits) is Ok {
                1
            } else {
                0
            },
            _ => 0,
        },
        ExprView::Bool(token) => if token.kind is True || token.kind is False {
            1
        } else {
            0
        },
        ExprView::Unary(_, operand) => constants_in_expression(*operand),
        ExprView::Binary(_, lhs, rhs) => constants_in_expression(*lhs) + constants_in_expression(
            *rhs,
        ),
        ExprView::Block(statements) => constants_in_statements(statements, 0),
        ExprView::If(_, condition, action, alternate) => constants_in_expression(*condition)
            + constants_in_statements(action, 0) + match alternate {
            Some(statements) => constants_in_statements(statements, 0),
            None => 0,
        },
        ExprView::Function(_, _, body) => constants_in_statements(body, 0) + 1,
        ExprView::Call(_, function, _) => constants_in_expression(*function),
    }
}

/// The number of constants that a statement adds to the pool.
pub open spec fn constants_in_statement(s: StmtView) -> nat
    decreases s, 0nat,
{
    match s {
        StmtView::Let(_, _, e) => constants_in_expression(e),
        StmtView::Return(_, e) => constants_in_expression(e),
        StmtView::Expression(e) => constants_in_expression(e),
    }
}

/// The number of constants that the statements from offset `from` on add
/// to the pool.
pub open spec fn constants_in_statements(statements: Seq<StmtView>, from: nat) -> nat
    decreases statements, statements.len() - from,
{
    if from >= statements.len() {
        0
    } else {
        constants_in_statement(statements[from as int]) + constants_in_statements(
            statements,
            from + 1,
        )
    }
}

/// The number of slots that an expression takes: one for each `let` in it
/// that is compiled.
pub open spec fn definitions_in_expression(e: ExprView) -> nat
    decreases e, 0nat,
{
    match e {
        ExprView::Ident(_) => 0,
        ExprView::Int(_) => 0,
        ExprView::Bool(_) => 0,
        ExprView::Unary(_, operand) => definitions_in_expression(*operand),
        ExprView::Binary(_, lhs, rhs) => definitions_in_expression(*lhs)
            + definitions_in_expression(*rhs),
        ExprView::Block(statements) => definitions_in_statements(statements, 0),
        ExprView::If(_, condition, action, alternate) => definitions_in_expression(*condition)
            + definitions_in_statements(action, 0) + match alternate {
            Some(statements) => definitions_in_statements(statements, 0),
            None => 0,
        },
        ExprView::Function(_, _, body) => definitions_in_statements(body, 0),
        ExprView::Call(_, function, _) => definitions_in_expression(*function),
    }
}

/// The number of slots that a statement takes.
pub open spec fn definitions_in_statement(s: StmtView) -> nat
    decreases s, 0nat,
{
    match s {
        StmtView::Let(_, ident, e) => definitions_in_expression(e) + if ident.kind is Ident {
            1nat
        } else {
            0nat
        },
        StmtView::Return(_, e) => definitions_in_expression(e),
        StmtView::Expression(e) => definitions_in_expression(e),
    }
}

/// The number of slots that the statements from offset `from` on take.
pub open spec fn definitions_in_statements(statements: Seq<StmtView>, from: nat) -> nat
    decreases statements, statements.len() - from,
{
    if from >= statements.len() {
        0
    } else {
        definitions_in_statement(statements[from as int]) + definitions_in_statements(
            statements,
            from + 1,
        )
    }
}

/// Whether the compiler accepts a node.
pub open spec fn compilable_node(node: NodeView) -> bool {
    match node {
        NodeView::Program(statements) => compilable_statements(statements, 0),
        NodeView::Statement(statement) => compilable_statement(statement),
        NodeView::Expression(expression) => compilable_expression(expression),
    }
}

/// The number of constants that a node adds to the pool.
pub open spec fn constants_in_node(node: NodeView) -> nat {
    match node {
        NodeView::Program(statements) => constants_in_statements(statements, 0),
        NodeView::Statement(statement) => constants_in_statement(statement),
        NodeView::Expression(expression) => constants_in_expression(expression),
    }
}

/// The number of slots that a node takes.
pub open spec fn definitions_in_node(node: NodeView) -> nat {
    match node {
        NodeView::Program(statements) => definitions_in_statements(statements, 0),
        NodeView::Statement(statement) => definitions_in_statement(statement),
        NodeView::Expression(expression) => definitions_in_expression(expression),
    }
}

/// Whether a state has room for `constants` more constants and
/// `definitions` more definitions.
pub open spec fn has_room(st: EmitterView, constants: nat, definitions: nat) -> bool {
    &&& st.constants.len() + constants <= max_constants()
    &&& st.definitions + definitions <= max_definitions()
}

/// Whether `after` can come after `before` once a node with the given
/// counts is compiled.
pub open spec fn grown(before: EmitterView, after: EmitterView, constants: nat, definitions: nat)
    -> bool {
    &&& after.extends(before)
    &&& after.constants.len() == before.constants.len() + constants
    &&& after.definitions == before.definitions + definitions
}

/// What extends a state that extends another extends that other.
pub proof fn lemma_extends_transitive(a: EmitterView, b: EmitterView, c: EmitterView)
    requires
        b.extends(a),
        c.extends(b),
    ensures
        c.extends(a),
{
    assert forall|j: int| 0 <= j < a.current().len() implies #[trigger] c.current()[j]
        == a.current()[j] by {
        assert(b.current()[j] == a.current()[j]);
        assert(c.current()[j] == b.current()[j]);
    }
}

/// Other instructions in the innermost scope extend a state if the scope
/// keeps the instructions that it had.
pub proof fn lemma_extends_with_current(st: EmitterView, instructions: Seq<Instruction>)
    requires
        st.scopes.len() >= 1,
        st.current().len() <= instructions.len(),
        forall|j: int| 0 <= j < st.current().len() ==> instructions[j] == st.current()[j],
    ensures
        st.with_current(instructions).extends(st),
        st.with_current(instructions).current() == instructions,
        st.with_current(instructions).scopes.len() == st.scopes.len(),
{
    assert(st.with_current(instructions).scopes.drop_last() =~= st.scopes.drop_last());
}

/// One more instruction extends a state.
pub proof fn lemma_extends_push(st: EmitterView, instruction: Instruction)
    requires
        st.scopes.len() >= 1,
    ensures
        st.push(instruction).extends(st),
        st.push(instruction).current() == st.current().push(instruction),
        st.push(instruction).constants == st.constants,
        st.push(instruction).definitions == st.definitions,
{
    lemma_extends_with_current(st, st.current().push(instruction));
}

/// A state has grown by nothing from itself.
pub proof fn lemma_grown_reflexive(st: EmitterView)
    ensures
        grown(st, st, 0, 0),
{
}

/// Growth adds up.
pub proof fn lemma_grown_transitive(
    a: EmitterView,
    b: EmitterView,
    c: EmitterView,
    constants_ab: nat,
    definitions_ab: nat,
    constants_bc: nat,
    definitions_bc: nat,
)
    requires
        grown(a, b, constants_ab, definitions_ab),
        grown(b, c, constants_bc, definitions_bc),
    ensures
        grown(a, c, constants_ab + constants_bc, definitions_ab + definitions_bc),
{
    lemma_extends_transitive(a, b, c);
}

/// One more instruction leaves the counts as they are.
pub proof fn lemma_grown_push(
    a: EmitterView,
    b: EmitterView,
    instruction: Instruction,
    constants: nat,
    definitions: nat,
)
    requires
        grown(a, b, constants, definitions),
        b.scopes.len() >= 1,
    ensures
        grown(a, b.push(instruction), constants, definitions),
{
    lemma_extends_push(b, instruction);
    lemma_extends_transitive(a, b, b.push(instruction));
}

/// One more constant counts as one.
pub proof fn lemma_grown_add_constant(
    a: EmitterView,
    b: EmitterView,
    constant: ObjectView,
    constants: nat,
    definitions: nat,
)
    requires
        grown(a, b, constants, definitions),
        b.scopes.len() >= 1,
    ensures
        grown(a, b.add_constant(constant), constants + 1, definitions),
{
    let with_constant = EmitterView { constants: b.constants.push(constant), ..b };
    assert(with_constant.extends(b));
    lemma_extends_push(with_constant, Instruction::Constant(b.constants.len() as u16));
    lemma_extends_transitive(b, with_constant, b.add_constant(constant));
    lemma_extends_transitive(a, b, b.add_constant(constant));
}

/// One more definition counts as one.
pub proof fn lemma_grown_define(
    a: EmitterView,
    b: EmitterView,
    name: Seq<char>,
    constants: nat,
    definitions: nat,
)
    requires
        grown(a, b, constants, definitions),
        b.scopes.len() >= 1,
    ensures
        grown(a, b.define(name), constants, definitions + 1),
{
    let defined = EmitterView {
        symbols: b.symbols.insert(name, b.definitions as u16),
        definitions: b.definitions + 1,
        ..b
    };
    assert(defined.extends(b));
    lemma_extends_push(defined, Instruction::SetGlobal(b.definitions as u16));
    lemma_extends_transitive(b, defined, b.define(name));
    lemma_extends_transitive(a, b, b.define(name));
}

/// Removing a last `Pop` keeps what a state had before, if that did not
/// end in `Pop`.
pub proof fn lemma_extends_without_trailing_pop(a: EmitterView, b: EmitterView)
    requires
        b.extends(a),
        a.scopes.len() >= 1,
        a.current().len() > 0,
        a.current().last() != Instruction::Pop,
    ensures
        b.without_trailing_pop().extends(a),
        b.without_trailing_pop().constants == b.constants,
        b.without_trailing_pop().definitions == b.definitions,
{
    if b.current().len() > 0 && b.current().last() == Instruction::Pop {
        assert(b.current()[a.current().len() - 1] == a.current()[a.current().len() - 1]);
        lemma_extends_with_current(a, b.current().drop_last());
        assert(b.without_trailing_pop().scopes.drop_last() =~= b.scopes.drop_last());
    }
}

/// Replacing an instruction that a state did not have before keeps what it
/// had.
pub proof fn lemma_extends_patch(
    a: EmitterView,
    b: EmitterView,
    index: int,
    instruction: Instruction,
)
    requires
        b.extends(a),
        a.scopes.len() >= 1,
        a.current().len() <= index < b.current().len(),
    ensures
        b.patch(index, instruction).extends(a),
        b.patch(index, instruction).current() == b.current().update(index, instruction),
        b.patch(index, instruction).constants == b.constants,
        b.patch(index, instruction).definitions == b.definitions,
{
    assert(b.patch(index, instruction).scopes.drop_last() =~= b.scopes.drop_last());
}

/// The names that are defined after an expression is compiled, where
/// `names` are those defined before it: every `let` in it defines its name,
/// wherever it stands.
pub open spec fn names_after_expression(e: ExprView, names: Set<Seq<char>>) -> Set<Seq<char>>
    decreases e, 0nat,
{
    match e {
        ExprView::Ident(_) => names,
        ExprView::Int(_) => names,
        ExprView::Bool(_) => names,
        ExprView::Unary(_, operand) => names_after_expression(*operand, names),
        ExprView::Binary(_, lhs, rhs) => names_after_expression(
            *rhs,
            names_after_expression(*lhs, names),
        ),
        ExprView::Block(statements) => names_after_statements(statements, 0, names),
        ExprView::If(_, condition, action, alternate) => {
            let after_action = names_after_statements(
                action,
                0,
                names_after_expression(*condition, names),
            );
            match alternate {
                Some(statements) => names_after_statements(statements, 0, after_action),
                None => after_action,
            }
        },
        ExprView::Function(_, _, body) => names_after_statements(body, 0, names),
        ExprView::Call(_, function, _) => names_after_expression(*function, names),
    }
}

/// The names that are defined after a statement is compiled.
pub open spec fn names_after_statement(s: StmtView, names: Set<Seq<char>>) -> Set<Seq<char>>
    decreases s, 0nat,
{
    match s {
        StmtView::Let(_, ident, e) => match ident.kind {
            TokenKind::Ident(name) => names_after_expression(e, names).insert(name),
            _ => names_after_expression(e, names),
        },
        StmtView::Return(_, e) => names_after_expression(e, names),
        StmtView::Expression(e) => names_after_expression(e, names),
    }
}

/// The names that are defined after the statements from offset `from` on
/// are compiled.
pub open spec fn names_after_statements(
    statements: Seq<StmtView>,
    from: nat,
    names: Set<Seq<char>>,
) -> Set<Seq<char>>
    decreases statements, statements.len() - from,
{
    if from >= statements.len() {
        names
    } else {
        names_after_statements(
            statements,
            from + 1,
            names_after_statement(statements[from as int], names),
        )
    }
}

/// Whether every name in an expression is defined where it is compiled: it
/// is among `names`, or a `let` that is compiled before it defines it.
pub open spec fn resolved_expression(e: ExprView, names: Set<Seq<char>>) -> bool
    decreases e, 0nat,
{
    match e {
        ExprView::Ident(token) => match token.kind {
            TokenKind::Ident(name) => names.contains(name),
            _ => true,
        },
        ExprView::Int(_) => true,
        ExprView::Bool(_) => true,
        ExprView::Unary(_, operand) => resolved_expression(*operand, names),
        ExprView::Binary(_, lhs, rhs) => resolved_expression(*lhs, names) && resolved_expression(
            *rhs,
            names_after_expression(*lhs, names),
        ),
        ExprView::Block(statements) => resolved_statements(statements, 0, names),
        ExprView::If(_, condition, action, alternate) => {
            let after_condition = names_after_expression(*condition, names);
            &&& resolved_expression(*condition, names)
            &&& resolved_statements(action, 0, after_condition)
            &&& match alternate {
                Some(statements) => resolved_statements(
                    statements,
                    0,
                    names_after_statements(action, 0, after_condition),
                ),
                None => true,
            }
        },
        ExprView::Function(_, _, body) => resolved_statements(body, 0, names),
        ExprView::Call(_, function, _) => resolved_expression(*function, names),
    }
}

/// Whether every name in a statement is defined where it is compiled.
pub open spec fn resolved_statement(s: StmtView, names: Set<Seq<char>>) -> bool
    decreases s, 0nat,
{
    match s {
        StmtView::Let(_, _, e) => resolved_expression(e, names),
        StmtView::Return(_, e) => resolved_expression(e, names),
        StmtView::Expression(e) => resolved_expression(e, names),
    }
}

/// Whether every name in the statements from offset `from` on is defined
/// where it is compiled.
pub open spec fn resolved_statements(statements: Seq<StmtView>, from: nat, names: Set<Seq<char>>)
    -> bool
    decreases statements, statements.len() - from,
{
    from >= statements.len() || (resolved_statement(statements[from as int], names)
        && resolved_statements(
        statements,
        from + 1,
        names_after_statement(statements[from as int], names),
    ))
}

/// Why the compiler refuses a program.
#[derive(Debug, Clone, Copy, PartialEq, Eq)]
pub enum CompileIssue {
    /// A name is used that no `let` before it defines.
    UnresolvedIdentifier,
    /// The token of a name is no identifier.
    ExpectedIdentifier,
    /// The token of an integer literal has no value.
    InvalidInteger,
    /// The token of a boolean literal is neither `true` nor `false`.
    ExpectedBoolean,
    /// The token of an operator is no operator of the language.
    InvalidOperator,
    /// A call has arguments.
    CallWithArguments,
    /// The pool has no room for another constant.
    TooManyConstants,
    /// No slot is left for another definition.
    TooManyDefinitions,
}

/// The mathematical value of a refusal: the issue, and the token at which
/// it arises.
pub ghost struct CompileErrorView {
    pub issue: CompileIssue,
    pub token: TokenView,
}

/// What an examination keeps count of: the names that are defined, and the
/// numbers of constants and of definitions.
pub ghost struct Tally {
    pub names: Set<Seq<char>>,
    pub constants: nat,
    pub definitions: nat,
}

/// The refusal with the given issue at the given token.
pub open spec fn refusal<T>(issue: CompileIssue, token: TokenView) -> Result<T, CompileErrorView> {
    Err(CompileErrorView { issue, token })
}

/// The tally with one more constant, or the refusal at `token` if the pool
/// is full.
pub open spec fn one_more_constant(t: Tally, token: TokenView) -> Result<Tally, CompileErrorView> {
    if t.constants < max_constants() {
        Ok(Tally { constants: t.constants + 1, ..t })
    } else {
        refusal(CompileIssue::TooManyConstants, token)
    }
}

/// The tally after an expression, or the first reason, in the order of
/// compilation, for which the compiler refuses it.
pub open spec fn examine_expression(e: ExprView, t: Tally) -> Result<Tally, CompileErrorView>
    decreases e, 0nat,
{
    match e {
        ExprView::Ident(token) => match token.kind {
            TokenKind::Ident(name) => if t.names.contains(name) {
                Ok(t)
            } else {
                refusal(CompileIssue::UnresolvedIdentifier, token)
            },
            _ => refusal(CompileIssue::ExpectedIdentifier, token),
        },
        ExprView::Int(token) => match token.kind {
            TokenKind::Int(digits) => if parse_integer(digits) is Ok {
                one_more_constant(t, token)
            } else {
                refusal(CompileIssue::InvalidInteger, token)
            },
            _ => refusal(CompileIssue::InvalidInteger, token),
        },
        ExprView::Bool(token) => if token.kind is True || token.kind is False {
            one_more_constant(t, token)
        } else {
            refusal(CompileIssue::ExpectedBoolean, token)
        },
        ExprView::Unary(operator, operand) => if unary_instruction(operator.kind) is Some {
            examine_expression(*operand, t)
        } else {
            refusal(CompileIssue::InvalidOperator, operator)
        },
        ExprView::Binary(operator, lhs, rhs) => if binary_instruction(operator.kind) is Some {
            match examine_expression(*lhs, t) {
                Ok(after) => examine_expression(*rhs, after),
                Err(e) => Err(e),
            }
        } else {
            refusal(CompileIssue::InvalidOperator, operator)
        },
        ExprView::Block(statements) => examine_statements(statements, 0, t),
        ExprView::If(_, condition, action, alternate) => match examine_expression(*condition, t) {
            Err(e) => Err(e),
            Ok(after_condition) => match examine_statements(action, 0, after_condition) {
                Err(e) => Err(e),
                Ok(after_action) => match alternate {
                    Some(statements) => examine_statements(statements, 0, after_action),
                    None => Ok(after_action),
                },
            },
        },
        ExprView::Function(token, _, body) => match examine_statements(body, 0, t) {
            Ok(after) => one_more_constant(after, token),
            Err(e) => Err(e),
        },
        ExprView::Call(site, function, args) => if args.len() == 0 {
            examine_expression(*function, t)
        } else {
            refusal(CompileIssue::CallWithArguments, site)
        },
    }
}

/// The tally after a statement, or the first reason for which the compiler
/// refuses it.
pub open spec fn examine_statement(s: StmtView, t: Tally) -> Result<Tally, CompileErrorView>
    decreases s, 0nat,
{
    match s {
        StmtView::Let(_, ident, e) => match ident.kind {
            TokenKind::Ident(name) => match examine_expression(e, t) {
                Err(e) => Err(e),
                Ok(after) => if after.definitions < max_definitions() {
                    Ok(
                        Tally {
                            names: after.names.insert(name),
                            definitions: after.definitions + 1,
                            ..after
                        },
                    )
                } else {
                    refusal(CompileIssue::TooManyDefinitions, ident)
                },
            },
            _ => refusal(CompileIssue::ExpectedIdentifier, ident),
        },
        StmtView::Return(_, e) => examine_expression(e, t),
        StmtView::Expression(e) => examine_expression(e, t),
    }
}

/// The tally after the statements from offset `from` on, or the first
/// reason for which the compiler refuses them.
pub open spec fn examine_statements(statements: Seq<StmtView>, from: nat, t: Tally) -> Result<
    Tally,
    CompileErrorView,
>
    decreases statements, statements.len() - from,
{
    if from >= statements.len() {
        Ok(t)
    } else {
        match examine_statement(statements[from as int], t) {
            Err(e) => Err(e),
            Ok(after) => examine_statements(statements, from + 1, after),
        }
    }
}

/// Whether a constant of the pool is in order among `count` constants: the
/// bytes of a compiled function are those that are handed out for
/// instructions whose constants are among them, and few enough for the
/// operand of a jump.
pub open spec fn constant_in_order(constant: ObjectView, count: nat) -> bool {
    match constant {
        ObjectView::CompiledFunction(bytes) => exists|code: Seq<Instruction>|
            #![trigger linearize(code)]
            bytes == linearize(code) && constants_in_range(code, count) && bytes.len()
                < crate::bytecode::capacity(crate::bytecode::JUMP_WIDTH as nat),
        _ => true,
    }
}

/// Whether every constant of the pool is in order.
pub open spec fn pool_in_order(constants: Seq<ObjectView>) -> bool {
    forall|i: int|
        0 <= i < constants.len() ==> constant_in_order(#[trigger] constants[i], constants.len())
}

/// Whether bytes are consistent among `count` constants: they are the
/// bytes that are handed out for some instructions, of which every one
/// that pushes a constant names one of the pool, and every jump lands.
pub open spec fn consistent(bytes: Seq<u8>, count: nat) -> bool {
    exists|code: Seq<Instruction>|
        #![trigger linearize(code)]
        {
            &&& bytes == linearize(code)
            &&& constants_in_range(code, count)
            &&& forall|index: int|
                0 <= index < code.len() && (code[index] is Jump || code[index] is JumpNotTruthy)
                    ==> #[trigger] crate::bytecode::jump_lands(code, index)
        }
}

/// Whether the bytes of a program and its pool are consistent: the bytes
/// of the program are, and so are those of every compiled function in the
/// pool.
pub open spec fn bytecode_consistent(bytes: Seq<u8>, constants: Seq<ObjectView>) -> bool {
    &&& consistent(bytes, constants.len())
    &&& forall|i: int|
        0 <= i < constants.len() ==> match #[trigger] constants[i] {
            ObjectView::CompiledFunction(code) => consistent(code, constants.len()),
            _ => true,
        }
}

/// The bytes of instructions whose constants are in the pool are
/// consistent, if they are few enough for the operand of a jump.
pub proof fn lemma_consistent(code: Seq<Instruction>, count: nat)
    requires
        constants_in_range(code, count),
        linearize(code).len() < crate::bytecode::capacity(crate::bytecode::JUMP_WIDTH as nat),
    ensures
        consistent(linearize(code), count),
{
    assert forall|index: int|
        0 <= index < code.len() && (code[index] is Jump
            || code[index] is JumpNotTruthy) implies #[trigger] crate::bytecode::jump_lands(
        code,
        index,
    ) by {
        crate::bytecode::theorem_jumps_land(code, index);
    }
}

/// What a compiler hands out is consistent: in the bytes of the program
/// and of every compiled function of a pool that is in order, every
/// instruction that pushes a constant names one of the pool, and every
/// jump lands within its own bytes, where an instruction starts or the
/// bytes end.
pub proof fn theorem_bytecode_is_consistent(code: Seq<Instruction>, constants: Seq<ObjectView>)
    requires
        constants_in_range(code, constants.len()),
        linearize(code).len() < crate::bytecode::capacity(crate::bytecode::JUMP_WIDTH as nat),
        pool_in_order(constants),
    ensures
        bytecode_consistent(linearize(code), constants),
{
    lemma_consistent(code, constants.len());
    assert forall|i: int| 0 <= i < constants.len() implies match #[trigger] constants[i] {
        ObjectView::CompiledFunction(bytes) => consistent(bytes, constants.len()),
        _ => true,
    } by {
        assert(constant_in_order(constants[i], constants.len()));
        match constants[i] {
            ObjectView::CompiledFunction(bytes) => {
                let inner = choose|inner: Seq<Instruction>|
                    #![trigger linearize(inner)]
                    bytes == linearize(inner) && constants_in_range(inner, constants.len())
                        && bytes.len() < crate::bytecode::capacity(
                        crate::bytecode::JUMP_WIDTH as nat,
                    );
                lemma_consistent(inner, constants.len());
            },
            _ => {},
        }
    }
}

/// Instructions whose constants are among some are among more.
pub proof fn lemma_in_range_among_more(code: Seq<Instruction>, count: nat, more: nat)
    requires
        constants_in_range(code, count),
        count <= more,
    ensures
        constants_in_range(code, more),
{
    assert forall|j: int| 0 <= j < code.len() implies fits(#[trigger] code[j], more) by {
        assert(fits(code[j], count));
    }
}

/// A constant that is in order among some constants is in order among
/// more.
pub proof fn lemma_in_order_among_more(constant: ObjectView, count: nat, more: nat)
    requires
        constant_in_order(constant, count),
        count <= more,
    ensures
        constant_in_order(constant, more),
{
    match constant {
        ObjectView::CompiledFunction(bytes) => {
            let code = choose|code: Seq<Instruction>|
                #![trigger linearize(code)]
                bytes == linearize(code) && constants_in_range(code, count) && bytes.len()
                    < crate::bytecode::capacity(crate::bytecode::JUMP_WIDTH as nat);
            lemma_in_range_among_more(code, count, more);
            assert(bytes == linearize(code));
        },
        _ => {},
    }
}

/// One more constant that is in order keeps the pool in order.
pub proof fn lemma_pool_with(constants: Seq<ObjectView>, constant: ObjectView)
    requires
        pool_in_order(constants),
        constant_in_order(constant, constants.len() + 1),
    ensures
        pool_in_order(constants.push(constant)),
{
    let more = constants.push(constant);
    assert forall|i: int| 0 <= i < more.len() implies constant_in_order(
        #[trigger] more[i],
        more.len(),
    ) by {
        if i < constants.len() {
            assert(constant_in_order(constants[i], constants.len()));
            lemma_in_order_among_more(constants[i], constants.len(), more.len());
        }
    }
}

/// Removing a last `Pop` that came after what a state had keeps what it
/// had.
pub proof fn lemma_extends_elided(a: EmitterView, b: EmitterView)
    requires
        b.extends(a),
        a.scopes.len() >= 1,
    ensures
        b.elided_after(a.current().len()).extends(a),
        b.elided_after(a.current().len()).constants == b.constants,
        b.elided_after(a.current().len()).definitions == b.definitions,
        b.elided_after(a.current().len()).symbols == b.symbols,
{
    if b.current().len() > a.current().len() && b.current().last() == Instruction::Pop {
        lemma_extends_with_current(a, b.current().drop_last());
        assert(b.without_trailing_pop().scopes.drop_last() =~= b.scopes.drop_last());
    }
}

/// The most constants that a pool holds: as many as two bytes can number.
pub open spec fn max_constants() -> nat {
    0x10000
}

/// The most definitions that a compiler makes.
pub open spec fn max_definitions() -> nat {
    0xffff
}

} // verus!
