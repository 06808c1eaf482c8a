//! Where the instructions of a supported program stand: what compiling
//! each form appends, and which instructions and constants of the parts are
//! those of the whole.

use vstd::prelude::*;
use crate::ast::{ExprView, StmtView};
use crate::bytecode::Instruction;
use crate::compilation::{
    binary_instruction, compile_expression, compile_statement, compile_statements,
    constants_in_expression, constants_in_statement, constants_in_statements,
    definitions_in_expression, definitions_in_statement, definitions_in_statements,
    lemma_extends_patch, lemma_extends_push, lemma_extends_transitive,
    lemma_extends_with_current, lemma_extends_without_trailing_pop, unary_instruction,
    EmitterView,
};
use crate::object::ObjectView;
use crate::compilation::{names_after_statement, names_after_statements};
use crate::subset::{
    is_sequence, lemma_branch_defines_nothing, lemma_expression_defines_nothing,
    lemma_expression_names, supported_branch, supported_expression, supported_statements,
};
use crate::text::parse_integer;
use crate::token::{TokenKind, TokenView};

verus! {

/// Whether two sequences have the same elements from `lo` up to `hi`.
#[verifier::opaque]
pub open spec fn same<T>(a: Seq<T>, b: Seq<T>, lo: int, hi: int) -> bool {
    forall|j: int| lo <= j < hi ==> a[j] == b[j]
}

/// Whether two sequences both reach `hi` and have the same elements from
/// `lo` up to `hi`.
pub open spec fn agree<T>(a: Seq<T>, b: Seq<T>, lo: int, hi: int) -> bool {
    &&& 0 <= lo
    &&& hi <= a.len()
    &&& hi <= b.len()
    &&& same(a, b, lo, hi)
}

/// Sequences that agree have the same element at every offset in between.
pub proof fn lemma_agree_at<T>(a: Seq<T>, b: Seq<T>, lo: int, hi: int, j: int)
    requires
        agree(a, b, lo, hi),
        lo <= j < hi,
    ensures
        a[j] == b[j],
{
    reveal(same);
}

/// A sequence agrees with itself.
pub proof fn lemma_agree_self<T>(a: Seq<T>, lo: int, hi: int)
    requires
        0 <= lo,
        hi <= a.len(),
    ensures
        agree(a, a, lo, hi),
{
    reveal(same);
}

/// Sequences that agree with a third one agree with each other where both
/// do.
pub proof fn lemma_agree_chain<T>(
    a: Seq<T>,
    b: Seq<T>,
    c: Seq<T>,
    lo_ab: int,
    hi_ab: int,
    lo_bc: int,
    hi_bc: int,
    lo: int,
    hi: int,
)
    requires
        agree(a, b, lo_ab, hi_ab),
        agree(b, c, lo_bc, hi_bc),
        lo_ab <= lo,
        lo_bc <= lo,
        hi <= hi_ab,
        hi <= hi_bc,
        0 <= lo,
    ensures
        agree(a, c, lo, hi),
{
    reveal(same);
}

/// Whether `after` comes from `before` by more instructions and constants
/// alone: the names are as they were, and so is every constant that there
/// was.
pub open spec fn keeps(before: EmitterView, after: EmitterView) -> bool {
    &&& after.extends(before)
    &&& after.symbols == before.symbols
    &&& after.definitions == before.definitions
    &&& before.constants.len() <= after.constants.len()
    &&& forall|j: int|
        0 <= j < before.constants.len() ==> #[trigger] after.constants[j] == before.constants[j]
}

/// What keeps what a state had, and is kept in turn, is kept.
pub proof fn lemma_keeps_transitive(a: EmitterView, b: EmitterView, c: EmitterView)
    requires
        keeps(a, b),
        keeps(b, c),
    ensures
        keeps(a, c),
{
    lemma_extends_transitive(a, b, c);
    assert forall|j: int| 0 <= j < a.constants.len() implies #[trigger] c.constants[j]
        == a.constants[j] by {
        assert(b.constants[j] == a.constants[j]);
        assert(c.constants[j] == b.constants[j]);
    }
}

/// One more instruction keeps what a state had.
pub proof fn lemma_keeps_push(st: EmitterView, instruction: Instruction)
    requires
        st.scopes.len() >= 1,
    ensures
        keeps(st, st.push(instruction)),
        st.push(instruction).current() == st.current().push(instruction),
        st.push(instruction).constants == st.constants,
{
    lemma_extends_push(st, instruction);
}

/// One more constant and the instruction that pushes it keep what a
/// state had.
pub proof fn lemma_keeps_add_constant(st: EmitterView, constant: ObjectView)
    requires
        st.scopes.len() >= 1,
    ensures
        keeps(st, st.add_constant(constant)),
        st.add_constant(constant).current() == st.current().push(
            Instruction::Constant(st.constants.len() as u16),
        ),
        st.add_constant(constant).constants == st.constants.push(constant),
{
    let with_constant = EmitterView { constants: st.constants.push(constant), ..st };
    assert(with_constant.extends(st));
    lemma_extends_push(with_constant, Instruction::Constant(st.constants.len() as u16));
    lemma_extends_transitive(st, with_constant, st.add_constant(constant));
}

/// Compiling a supported expression adds instructions and constants and
/// nothing else, and as many constants as the expression has literals.
pub proof fn lemma_expression_keeps(e: ExprView, st: EmitterView)
    requires
        supported_expression(e, st.symbols.dom()),
        st.scopes.len() >= 1,
    ensures
        keeps(st, compile_expression(e, st)),
        compile_expression(e, st).constants.len() == st.constants.len()
            + constants_in_expression(e),
        compile_expression(e, st).current().len() > st.current().len(),
    decreases e, 0nat,
{
    match e {
        ExprView::Ident(token) => {
            lemma_keeps_push(st, Instruction::GetGlobal(st.symbols[token.kind->Ident_0]));
        },
        ExprView::Int(token) => {
            lemma_keeps_add_constant(
                st,
                ObjectView::Int(parse_integer(token.kind->Int_0)->Ok_0),
            );
        },
        ExprView::Bool(token) => {
            lemma_keeps_add_constant(st, ObjectView::Bool(token.kind is True));
        },
        ExprView::Unary(operator, operand) => {
            let after = compile_expression(*operand, st);
            lemma_expression_keeps(*operand, st);
            lemma_keeps_push(after, unary_instruction(operator.kind)->Some_0);
            lemma_keeps_transitive(st, after, compile_expression(e, st));
        },
        ExprView::Binary(operator, lhs, rhs) => {
            let left = compile_expression(*lhs, st);
            lemma_expression_keeps(*lhs, st);
            let right = compile_expression(*rhs, left);
            lemma_expression_keeps(*rhs, left);
            lemma_keeps_transitive(st, left, right);
            lemma_keeps_push(right, binary_instruction(operator.kind)->Some_0);
            lemma_keeps_transitive(st, right, compile_expression(e, st));
        },
        ExprView::If(_, condition, action, alternate) => {
            let s1 = compile_expression(*condition, st);
            lemma_expression_keeps(*condition, st);
            let s2 = s1.push(Instruction::JumpNotTruthy(0));
            lemma_keeps_push(s1, Instruction::JumpNotTruthy(0));
            let test = s2.last_index();
            let s3 = compile_statements(action, 0, s2);
            lemma_branch_keeps(action, 0, s2);
            let s4 = s3.without_trailing_pop();
            lemma_extends_without_trailing_pop(s2, s3);
            lemma_extends_transitive(s1, s2, s4);
            let s5 = s4.push(Instruction::Jump(0));
            lemma_keeps_push(s4, Instruction::Jump(0));
            let skip = s5.last_index();
            lemma_extends_transitive(s1, s4, s5);
            let s6 = s5.patch(test, Instruction::JumpNotTruthy(skip as usize));
            lemma_extends_patch(s1, s5, test, Instruction::JumpNotTruthy(skip as usize));
            let s7 = compile_statements(alternate->Some_0, 0, s6);
            lemma_branch_keeps(alternate->Some_0, 0, s6);
            let s8 = s7.without_trailing_pop();
            lemma_extends_without_trailing_pop(s6, s7);
            lemma_extends_transitive(s1, s6, s8);
            let s9 = s8.patch(skip, Instruction::Jump(s8.last_index() as usize));
            lemma_extends_patch(s1, s8, skip, Instruction::Jump(s8.last_index() as usize));
            lemma_extends_transitive(st, s1, s9);
            assert(s9 == compile_expression(e, st));
            assert(keeps(s1, s9)) by {
                assert forall|j: int| 0 <= j < s1.constants.len() implies #[trigger] s9.constants[j]
                    == s1.constants[j] by {
                    assert(s3.constants[j] == s2.constants[j]);
                    assert(s7.constants[j] == s6.constants[j]);
                }
            }
            lemma_keeps_transitive(st, s1, s9);
        },
        ExprView::Block(statements) => {
            let lowered = compile_statements(statements, 0, st);
            lemma_branch_keeps(statements, 0, st);
            lemma_branch_long(statements, 0, st);
            lemma_extends_with_current(st, lowered.current().drop_last());
            assert(lowered.without_trailing_pop().scopes.drop_last()
                =~= lowered.scopes.drop_last());
        },
        _ => {},
    }
}

/// Compiling a supported branch adds instructions and constants and
/// nothing else, and the last instruction discards the value of the last
/// statement.
pub proof fn lemma_branch_keeps(statements: Seq<StmtView>, from: nat, st: EmitterView)
    requires
        supported_branch(statements, from, st.symbols.dom()),
        st.scopes.len() >= 1,
    ensures
        keeps(st, compile_statements(statements, from, st)),
        compile_statements(statements, from, st).constants.len() == st.constants.len()
            + constants_in_statements(statements, from),
        compile_statements(statements, from, st).current().len() > st.current().len(),
        compile_statements(statements, from, st).current().last() == Instruction::Pop,
    decreases statements, statements.len() - from,
{
    let e = statements[from as int]->Expression_0;
    let s1 = compile_expression(e, st);
    lemma_expression_keeps(e, st);
    let s2 = s1.push(Instruction::Pop);
    lemma_keeps_push(s1, Instruction::Pop);
    lemma_keeps_transitive(st, s1, s2);
    assert(s2 == compile_statement(statements[from as int], st));
    assert(constants_in_statements(statements, from) == constants_in_expression(e)
        + constants_in_statements(statements, from + 1)) by {
        assert(crate::compilation::constants_in_statement(statements[from as int])
            == constants_in_expression(e));
    }
    if from + 1 < statements.len() {
        lemma_branch_keeps(statements, from + 1, s2);
        lemma_keeps_transitive(st, s2, compile_statements(statements, from + 1, s2));
    } else {
        assert(compile_statements(statements, from + 1, s2) == s2);
        assert(constants_in_statements(statements, from + 1) == 0);
    }
}

/// Whether `after` comes from `before` by more instructions, constants and
/// names: every instruction and constant that there was is as it was.
pub open spec fn retains(before: EmitterView, after: EmitterView) -> bool {
    &&& after.extends(before)
    &&& before.constants.len() <= after.constants.len()
    &&& forall|j: int|
        0 <= j < before.constants.len() ==> #[trigger] after.constants[j] == before.constants[j]
}

/// What is retained twice is retained.
pub proof fn lemma_retains_transitive(a: EmitterView, b: EmitterView, c: EmitterView)
    requires
        retains(a, b),
        retains(b, c),
    ensures
        retains(a, c),
{
    lemma_extends_transitive(a, b, c);
    assert forall|j: int| 0 <= j < a.constants.len() implies #[trigger] c.constants[j]
        == a.constants[j] by {
        assert(b.constants[j] == a.constants[j]);
        assert(c.constants[j] == b.constants[j]);
    }
}

/// The state after a supported statement: what there was is as it was, a
/// `let` has defined its name in the next slot, and the counts have grown
/// by those of the statement.
pub proof fn lemma_statement_retains(s: StmtView, st: EmitterView)
    requires
        match s {
            StmtView::Let(_, ident, e) => ident.kind is Ident && supported_expression(
                e,
                st.symbols.dom(),
            ),
            StmtView::Expression(e) => supported_expression(e, st.symbols.dom()),
            StmtView::Return(_, _) => false,
        },
        st.scopes.len() >= 1,
    ensures
        retains(st, compile_statement(s, st)),
        compile_statement(s, st).constants.len() == st.constants.len() + constants_in_statement(
            s,
        ),
        compile_statement(s, st).definitions == st.definitions + definitions_in_statement(s),
        compile_statement(s, st).current().len() > st.current().len(),
        match s {
            StmtView::Let(_, ident, e) => {
                &&& compile_statement(s, st).symbols == st.symbols.insert(
                    ident.kind->Ident_0,
                    st.definitions as u16,
                )
                &&& compile_statement(s, st).current() == compile_expression(
                    e,
                    st,
                ).current().push(Instruction::SetGlobal(st.definitions as u16))
                &&& compile_statement(s, st).constants == compile_expression(e, st).constants
            },
            StmtView::Expression(e) => {
                &&& compile_statement(s, st).symbols == st.symbols
                &&& compile_statement(s, st).current() == compile_expression(
                    e,
                    st,
                ).current().push(Instruction::Pop)
                &&& compile_statement(s, st).constants == compile_expression(e, st).constants
            },
            StmtView::Return(_, _) => true,
        },
{
    match s {
        StmtView::Let(_, ident, e) => {
            let s1 = compile_expression(e, st);
            lemma_expression_keeps(e, st);
            let name = ident.kind->Ident_0;
            let defined = EmitterView {
                symbols: s1.symbols.insert(name, s1.definitions as u16),
                definitions: s1.definitions + 1,
                ..s1
            };
            assert(defined.extends(s1));
            lemma_extends_push(defined, Instruction::SetGlobal(s1.definitions as u16));
            lemma_extends_transitive(s1, defined, s1.define(name));
            lemma_extends_transitive(st, s1, s1.define(name));
            assert(definitions_in_expression(e) == 0) by {
                lemma_expression_defines_nothing(e, st.symbols.dom());
            }
        },
        StmtView::Expression(e) => {
            let s1 = compile_expression(e, st);
            lemma_expression_keeps(e, st);
            lemma_keeps_push(s1, Instruction::Pop);
            lemma_keeps_transitive(st, s1, s1.push(Instruction::Pop));
            assert(definitions_in_expression(e) == 0) by {
                lemma_expression_defines_nothing(e, st.symbols.dom());
            }
        },
        StmtView::Return(_, _) => {},
    }
}

/// Whether a statement is a block.
pub open spec fn is_block_statement(s: StmtView) -> bool {
    s is Expression && s->Expression_0 is Block
}

/// The statements of a statement that is a block.
pub open spec fn block_of(s: StmtView) -> Seq<StmtView> {
    s->Expression_0->Block_0
}

/// A block that stands as a statement compiles as its statements do: the
/// `Pop` that the block gives up is the one that the statement adds.
pub proof fn lemma_block_statement_is_inner(inner: Seq<StmtView>, st: EmitterView)
    requires
        st.scopes.len() >= 1,
        compile_statements(inner, 0, st).scopes.len() == st.scopes.len(),
        compile_statements(inner, 0, st).current().len() > st.current().len(),
        compile_statements(inner, 0, st).current().last() == Instruction::Pop,
    ensures
        compile_statement(StmtView::Expression(ExprView::Block(inner)), st) == compile_statements(
            inner,
            0,
            st,
        ),
{
    let lowered = compile_statements(inner, 0, st);
    let elided = lowered.elided_after(st.current().len());
    assert(compile_expression(ExprView::Block(inner), st) == elided);
    let again = elided.push(Instruction::Pop);
    assert(again.current() =~= lowered.current());
    assert(again.scopes =~= lowered.scopes);
}

/// The state after supported statements: what there was is as it was, the
/// names and the counts are those of the statements, and after a last
/// expression the last instruction is `Pop`.
pub proof fn lemma_statements_retain(statements: Seq<StmtView>, from: nat, st: EmitterView)
    requires
        supported_statements(statements, from, st.symbols.dom()),
        st.scopes.len() >= 1,
    ensures
        retains(st, compile_statements(statements, from, st)),
        compile_statements(statements, from, st).symbols.dom() == names_after_statements(
            statements,
            from,
            st.symbols.dom(),
        ),
        compile_statements(statements, from, st).constants.len() == st.constants.len()
            + constants_in_statements(statements, from),
        compile_statements(statements, from, st).definitions == st.definitions
            + definitions_in_statements(statements, from),
        from < statements.len() && statements.last() is Expression ==> compile_statements(
            statements,
            from,
            st,
        ).current().len() > st.current().len() && compile_statements(
            statements,
            from,
            st,
        ).current().last() == Instruction::Pop,
    decreases statements, statements.len() - from,
{
    if from < statements.len() {
        let s = statements[from as int];
        let s2 = compile_statement(s, st);
        let names = st.symbols.dom();
        if is_block_statement(s) {
            let inner = block_of(s);
            lemma_statements_retain(inner, 0, st);
            lemma_block_statement_is_inner(inner, st);
            assert(names_after_statement(s, names) == names_after_statements(inner, 0, names));
            assert(constants_in_statement(s) == constants_in_statements(inner, 0));
            assert(definitions_in_statement(s) == definitions_in_statements(inner, 0));
        } else {
            lemma_statement_retains(s, st);
            lemma_expression_names(statement_expression(s), names);
            match s {
                StmtView::Let(_, ident, _) => {
                    assert(s2.symbols.dom() =~= names.insert(ident.kind->Ident_0));
                },
                _ => {},
            }
        }
        assert(s2.symbols.dom() == names_after_statement(s, names));
        assert(names_after_statements(statements, from, names) == names_after_statements(
            statements,
            from + 1,
            names_after_statement(s, names),
        ));
        lemma_statements_retain(statements, from + 1, s2);
        lemma_retains_transitive(st, s2, compile_statements(statements, from + 1, s2));
    }
}

/// Whether `after` comes from `before` by more instructions and constants
/// alone, said without quantifiers in sight.
pub open spec fn grew(before: EmitterView, after: EmitterView) -> bool {
    &&& before.scopes.len() >= 1
    &&& after.scopes.len() >= 1
    &&& after.symbols == before.symbols
    &&& after.definitions == before.definitions
    &&& agree(after.current(), before.current(), 0, before.current().len() as int)
    &&& agree(after.constants, before.constants, 0, before.constants.len() as int)
}

/// A state that keeps what another had has grown from it.
pub proof fn lemma_grew_from_keeps(before: EmitterView, after: EmitterView)
    requires
        keeps(before, after),
        before.scopes.len() >= 1,
    ensures
        grew(before, after),
{
    reveal(same);
}

/// The state after a supported expression is compiled.
#[verifier::opaque]
pub open spec fn code_of(e: ExprView, st: EmitterView) -> EmitterView {
    compile_expression(e, st)
}

/// The state after the statements from offset `from` on are compiled.
#[verifier::opaque]
pub open spec fn code_of_all(statements: Seq<StmtView>, from: nat, st: EmitterView)
    -> EmitterView {
    compile_statements(statements, from, st)
}

/// What compiling a supported expression does: it appends at least one
/// instruction, and as many constants as the expression has literals.
pub proof fn lemma_layout_expression(e: ExprView, st: EmitterView)
    requires
        supported_expression(e, st.symbols.dom()),
        st.scopes.len() >= 1,
    ensures
        grew(st, code_of(e, st)),
        code_of(e, st).current().len() > st.current().len(),
        code_of(e, st).constants.len() == st.constants.len() + constants_in_expression(e),
{
    reveal(code_of);
    lemma_expression_keeps(e, st);
    lemma_grew_from_keeps(st, compile_expression(e, st));
}

/// A name is one instruction, which pushes the global of the name.
pub proof fn lemma_layout_ident(token: TokenView, st: EmitterView)
    requires
        supported_expression(ExprView::Ident(token), st.symbols.dom()),
        st.scopes.len() >= 1,
    ensures
        ({
            let done = code_of(ExprView::Ident(token), st);
            let n = st.current().len() as int;
            &&& token.kind is Ident
            &&& st.symbols.contains_key(token.kind->Ident_0)
            &&& done.current().len() == n + 1
            &&& done.current()[n] == Instruction::GetGlobal(st.symbols[token.kind->Ident_0])
        }),
{
    reveal(code_of);
    lemma_keeps_push(st, Instruction::GetGlobal(st.symbols[token.kind->Ident_0]));
}

/// The value of a literal.
pub open spec fn literal_value(e: ExprView) -> ObjectView {
    match e {
        ExprView::Int(token) => match token.kind {
            TokenKind::Int(digits) => match parse_integer(digits) {
                Ok(i) => ObjectView::Int(i),
                Err(_) => ObjectView::Null,
            },
            _ => ObjectView::Null,
        },
        ExprView::Bool(token) => ObjectView::Bool(token.kind is True),
        _ => ObjectView::Null,
    }
}

/// A literal is one new constant and one instruction, which pushes it.
pub proof fn lemma_layout_literal(e: ExprView, st: EmitterView)
    requires
        e is Int || e is Bool,
        supported_expression(e, st.symbols.dom()),
        st.scopes.len() >= 1,
    ensures
        ({
            let done = code_of(e, st);
            let n = st.current().len() as int;
            let k = st.constants.len() as int;
            &&& done.current().len() == n + 1
            &&& done.current()[n] == Instruction::Constant(k as u16)
            &&& done.constants.len() == k + 1
            &&& done.constants[k] == literal_value(e)
            &&& constants_in_expression(e) == 1
        }),
{
    reveal(code_of);
    lemma_keeps_add_constant(st, literal_value(e));
}

/// A prefix operator is the instructions of its operand and then its own.
pub proof fn lemma_layout_unary(operator: TokenView, operand: ExprView, st: EmitterView)
    requires
        supported_expression(ExprView::Unary(operator, Box::new(operand)), st.symbols.dom()),
        st.scopes.len() >= 1,
    ensures
        ({
            let s1 = code_of(operand, st);
            let done = code_of(ExprView::Unary(operator, Box::new(operand)), st);
            &&& supported_expression(operand, st.symbols.dom())
            &&& unary_instruction(operator.kind) is Some
            &&& grew(s1, done)
            &&& done.current().len() == s1.current().len() + 1
            &&& done.current()[s1.current().len() as int] == unary_instruction(
                operator.kind,
            )->Some_0
            &&& constants_in_expression(ExprView::Unary(operator, Box::new(operand)))
                == constants_in_expression(operand)
        }),
{
    reveal(code_of);
    let s1 = compile_expression(operand, st);
    lemma_expression_keeps(operand, st);
    lemma_keeps_push(s1, unary_instruction(operator.kind)->Some_0);
    lemma_grew_from_keeps(s1, s1.push(unary_instruction(operator.kind)->Some_0));
}

/// A binary operator is the instructions of its left operand, those of its
/// right operand, and then its own.
pub proof fn lemma_layout_binary(operator: TokenView, lhs: ExprView, rhs: ExprView, st: EmitterView)
    requires
        supported_expression(
            ExprView::Binary(operator, Box::new(lhs), Box::new(rhs)),
            st.symbols.dom(),
        ),
        st.scopes.len() >= 1,
    ensures
        ({
            let s1 = code_of(lhs, st);
            let s2 = code_of(rhs, s1);
            let done = code_of(ExprView::Binary(operator, Box::new(lhs), Box::new(rhs)), st);
            &&& supported_expression(lhs, st.symbols.dom())
            &&& supported_expression(rhs, s1.symbols.dom())
            &&& binary_instruction(operator.kind) is Some
            &&& grew(s2, done)
            &&& done.current().len() == s2.current().len() + 1
            &&& done.current()[s2.current().len() as int] == binary_instruction(
                operator.kind,
            )->Some_0
            &&& constants_in_expression(ExprView::Binary(operator, Box::new(lhs), Box::new(rhs)))
                == constants_in_expression(lhs) + constants_in_expression(rhs)
        }),
{
    reveal(code_of);
    let s1 = compile_expression(lhs, st);
    lemma_expression_keeps(lhs, st);
    let s2 = compile_expression(rhs, s1);
    lemma_expression_keeps(rhs, s1);
    lemma_keeps_push(s2, binary_instruction(operator.kind)->Some_0);
    lemma_grew_from_keeps(s2, s2.push(binary_instruction(operator.kind)->Some_0));
}

/// A block is its statements without the last `Pop`.
pub proof fn lemma_layout_block(statements: Seq<StmtView>, st: EmitterView)
    requires
        supported_expression(ExprView::Block(statements), st.symbols.dom()),
        st.scopes.len() >= 1,
    ensures
        ({
            let lowered = code_of_all(statements, 0, st);
            let done = code_of(ExprView::Block(statements), st);
            &&& supported_branch(statements, 0, st.symbols.dom())
            &&& done.current().len() == lowered.current().len() - 1
            &&& agree(done.current(), lowered.current(), 0, done.current().len() as int)
            &&& done.constants == lowered.constants
            &&& constants_in_expression(ExprView::Block(statements)) == constants_in_statements(
                statements,
                0,
            )
        }),
{
    reveal(code_of);
    reveal(code_of_all);
    reveal(same);
    lemma_branch_keeps(statements, 0, st);
    lemma_branch_long(statements, 0, st);
}

/// The state in which the consequence of an `if` is compiled, after the
/// condition.
pub open spec fn consequence_start(tested: EmitterView) -> EmitterView {
    tested.push(Instruction::JumpNotTruthy(0))
}

/// The state in which the alternative of an `if` is compiled, after the
/// consequence; `test` is the number of the jump after the condition.
pub open spec fn alternative_start(consequence: EmitterView, test: int) -> EmitterView {
    let skipped = consequence.without_trailing_pop().push(Instruction::Jump(0));
    skipped.patch(test, Instruction::JumpNotTruthy(skipped.last_index() as usize))
}

/// An `if` with both branches is the instructions of the condition, a jump
/// to the alternative if the condition does not hold, the consequence
/// without its last `Pop`, a jump to the end, and the alternative without
/// its last `Pop`.
pub proof fn lemma_layout_if(
    token: TokenView,
    condition: ExprView,
    action: Seq<StmtView>,
    other: Seq<StmtView>,
    st: EmitterView,
)
    requires
        supported_expression(
            ExprView::If(token, Box::new(condition), action, Some(other)),
            st.symbols.dom(),
        ),
        st.scopes.len() >= 1,
    ensures
        ({
            let s1 = code_of(condition, st);
            let s2 = consequence_start(s1);
            let s3 = code_of_all(action, 0, s2);
            let test = s1.current().len() as int;
            let skip = s3.current().len() - 1;
            let s6 = alternative_start(s3, test);
            let s7 = code_of_all(other, 0, s6);
            let end = s7.current().len() - 1;
            let done = code_of(ExprView::If(token, Box::new(condition), action, Some(other)), st);
            &&& supported_expression(condition, st.symbols.dom())
            &&& supported_branch(action, 0, s2.symbols.dom())
            &&& supported_branch(other, 0, s6.symbols.dom())
            &&& done.current().len() == end
            &&& test + 2 <= skip
            &&& skip + 2 <= end
            &&& done.current()[test] == Instruction::JumpNotTruthy(skip as usize)
            &&& done.current()[skip] == Instruction::Jump((end - 1) as usize)
            &&& agree(done.current(), s1.current(), 0, test)
            &&& agree(done.current(), s3.current(), test + 1, skip)
            &&& agree(done.current(), s7.current(), skip + 1, end)
            &&& agree(done.constants, s1.constants, 0, s1.constants.len() as int)
            &&& agree(done.constants, s3.constants, 0, s3.constants.len() as int)
            &&& done.constants == s7.constants
            &&& s2.scopes.len() >= 1
            &&& s2.symbols == st.symbols
            &&& s2.current().len() == test + 1
            &&& s2.constants == s1.constants
            &&& s2.definitions == st.definitions
            &&& s6.scopes.len() >= 1
            &&& s6.definitions == st.definitions
            &&& s6.symbols == st.symbols
            &&& s6.current().len() == skip + 1
            &&& s6.constants == s3.constants
            &&& s3.constants.len() == s1.constants.len() + constants_in_statements(action, 0)
            &&& constants_in_expression(
                ExprView::If(token, Box::new(condition), action, Some(other)),
            ) == constants_in_expression(condition) + constants_in_statements(action, 0)
                + constants_in_statements(other, 0)
        }),
{
    reveal(code_of);
    reveal(code_of_all);
    reveal(same);
    let e = ExprView::If(token, Box::new(condition), action, Some(other));
    let s1 = compile_expression(condition, st);
    lemma_expression_keeps(condition, st);
    let s2 = s1.push(Instruction::JumpNotTruthy(0));
    lemma_keeps_push(s1, Instruction::JumpNotTruthy(0));
    let test = s2.last_index();
    let s3 = compile_statements(action, 0, s2);
    lemma_branch_keeps(action, 0, s2);
    lemma_branch_long(action, 0, s2);
    let s4 = s3.without_trailing_pop();
    lemma_extends_without_trailing_pop(s2, s3);
    let s5 = s4.push(Instruction::Jump(0));
    lemma_keeps_push(s4, Instruction::Jump(0));
    let skip = s5.last_index();
    lemma_extends_transitive(s2, s4, s5);
    lemma_extends_transitive(s1, s2, s5);
    let s6 = s5.patch(test, Instruction::JumpNotTruthy(skip as usize));
    lemma_extends_patch(s1, s5, test, Instruction::JumpNotTruthy(skip as usize));
    assert(s6 == alternative_start(s3, test));
    let s7 = compile_statements(other, 0, s6);
    lemma_branch_keeps(other, 0, s6);
    lemma_branch_long(other, 0, s6);
    let s8 = s7.without_trailing_pop();
    lemma_extends_without_trailing_pop(s6, s7);
    let s9 = s8.patch(skip, Instruction::Jump(s8.last_index() as usize));
    lemma_extends_transitive(s1, s6, s8);
    lemma_extends_patch(s1, s8, skip, Instruction::Jump(s8.last_index() as usize));
    assert(s9 == compile_expression(e, st));
    let end = s9.current().len() as int;
    assert(test == s1.current().len());
    assert(skip == s3.current().len() - 1);
    assert(end == s7.current().len() - 1);
    assert(s9.current()[test] == Instruction::JumpNotTruthy(skip as usize)) by {
        assert(s6.current()[test] == Instruction::JumpNotTruthy(skip as usize));
        assert(s7.current()[test] == s6.current()[test]);
    }
    assert(s9.current()[skip] == Instruction::Jump((end - 1) as usize));
    assert forall|j: int| 0 <= j < test implies #[trigger] s9.current()[j] == s1.current()[j] by {
        assert(s3.current()[j] == s2.current()[j]);
        assert(s7.current()[j] == s6.current()[j]);
    }
    assert forall|j: int| test < j < skip implies #[trigger] s9.current()[j] == s3.current()[j] by {
        assert(s7.current()[j] == s6.current()[j]);
    }
    assert forall|j: int| skip < j < end implies #[trigger] s9.current()[j] == s7.current()[j] by {}
    assert(s9.constants == s7.constants);
    assert forall|j: int| 0 <= j < s3.constants.len() implies #[trigger] s9.constants[j]
        == s3.constants[j] by {
        assert(s7.constants[j] == s6.constants[j]);
    }
    assert forall|j: int| 0 <= j < s1.constants.len() implies #[trigger] s9.constants[j]
        == s1.constants[j] by {
        assert(s3.constants[j] == s2.constants[j]);
        assert(s9.constants[j] == s3.constants[j]);
    }
}

/// A supported branch is at least two instructions.
pub proof fn lemma_branch_long(statements: Seq<StmtView>, from: nat, st: EmitterView)
    requires
        supported_branch(statements, from, st.symbols.dom()),
        st.scopes.len() >= 1,
    ensures
        compile_statements(statements, from, st).current().len() >= st.current().len() + 2,
    decreases statements, statements.len() - from,
{
    let e = statements[from as int]->Expression_0;
    let s1 = compile_expression(e, st);
    lemma_expression_keeps(e, st);
    let s2 = s1.push(Instruction::Pop);
    lemma_keeps_push(s1, Instruction::Pop);
    assert(s2 == compile_statement(statements[from as int], st));
    if from + 1 < statements.len() {
        lemma_branch_keeps(statements, from + 1, s2);
    } else {
        assert(compile_statements(statements, from + 1, s2) == s2);
    }
}

/// A supported branch is the instructions of its first statement, a `Pop`,
/// and the instructions of the statements after it.
pub proof fn lemma_layout_branch(statements: Seq<StmtView>, from: nat, st: EmitterView)
    requires
        supported_branch(statements, from, st.symbols.dom()),
        st.scopes.len() >= 1,
    ensures
        ({
            let e = statements[from as int]->Expression_0;
            let s1 = code_of(e, st);
            let s2 = s1.push(Instruction::Pop);
            let done = code_of_all(statements, from, st);
            let middle = s1.current().len() as int;
            &&& statements[from as int] is Expression
            &&& supported_expression(e, st.symbols.dom())
            &&& s2.scopes.len() >= 1
            &&& s2.symbols == st.symbols
            &&& s2.definitions == st.definitions
            &&& s2.current().len() == middle + 1
            &&& s2.constants == s1.constants
            &&& (from + 1 == statements.len() ==> done == s2)
            &&& (from + 1 < statements.len() ==> {
                &&& done == code_of_all(statements, from + 1, s2)
                &&& supported_branch(statements, from + 1, s2.symbols.dom())
                &&& done.current().len() >= middle + 3
            })
            &&& done.current().len() >= middle + 1
            &&& agree(done.current(), s1.current(), 0, middle)
            &&& done.current()[middle] == Instruction::Pop
            &&& agree(done.constants, s1.constants, 0, s1.constants.len() as int)
            &&& constants_in_statements(statements, from) == constants_in_expression(e)
                + constants_in_statements(statements, from + 1)
        }),
{
    reveal(code_of);
    reveal(code_of_all);
    reveal(same);
    let e = statements[from as int]->Expression_0;
    let s1 = compile_expression(e, st);
    let s2 = s1.push(Instruction::Pop);
    let done = compile_statements(statements, from, st);
    lemma_expression_keeps(e, st);
    lemma_keeps_push(s1, Instruction::Pop);
    assert(s2 == compile_statement(statements[from as int], st));
    assert(done == compile_statements(statements, from + 1, s2));
    assert(constants_in_statements(statements, from) == constants_in_expression(e)
        + constants_in_statements(statements, from + 1)) by {
        assert(constants_in_statement(statements[from as int]) == constants_in_expression(e));
    }
    if from + 1 < statements.len() {
        lemma_branch_keeps(statements, from + 1, s2);
        lemma_branch_long(statements, from + 1, s2);
        assert forall|j: int| 0 <= j < s1.current().len() implies #[trigger] done.current()[j]
            == s1.current()[j] by {
            assert(done.current()[j] == s2.current()[j]);
        }
        let middle = s1.current().len() as int;
        assert(done.current()[middle] == s2.current()[middle]);
    } else {
        assert(done == s2);
    }
}

/// The state after a statement of a program, where `compiled` is the state
/// after its expression.
pub open spec fn statement_end(s: StmtView, compiled: EmitterView) -> EmitterView {
    match s {
        StmtView::Let(_, ident, _) => match ident.kind {
            TokenKind::Ident(name) => compiled.define(name),
            _ => compiled,
        },
        StmtView::Return(_, _) => compiled.push(Instruction::ReturnValue),
        StmtView::Expression(_) => compiled.push(Instruction::Pop),
    }
}

/// The expression of a statement.
pub open spec fn statement_expression(s: StmtView) -> ExprView {
    match s {
        StmtView::Let(_, _, e) => e,
        StmtView::Return(_, e) => e,
        StmtView::Expression(e) => e,
    }
}

/// The instruction that ends a statement of a program, where `definitions`
/// is the number of definitions before it.
pub open spec fn statement_instruction(s: StmtView, definitions: nat) -> Instruction {
    match s {
        StmtView::Let(_, _, _) => Instruction::SetGlobal(definitions as u16),
        StmtView::Return(_, _) => Instruction::ReturnValue,
        StmtView::Expression(_) => Instruction::Pop,
    }
}

/// Supported statements are the instructions of the expression of the
/// first, the instruction that ends it, and the instructions of the
/// statements after it.
pub proof fn lemma_layout_statements(statements: Seq<StmtView>, from: nat, st: EmitterView)
    requires
        supported_statements(statements, from, st.symbols.dom()),
        from < statements.len(),
        !is_block_statement(statements[from as int]),
        st.scopes.len() >= 1,
    ensures
        ({
            let s = statements[from as int];
            let e = statement_expression(s);
            let s1 = code_of(e, st);
            let s2 = statement_end(s, s1);
            let done = code_of_all(statements, from, st);
            let middle = s1.current().len() as int;
            &&& !(s is Return)
            &&& (s is Let ==> s->Let_1.kind is Ident)
            &&& supported_expression(e, st.symbols.dom())
            &&& done == code_of_all(statements, from + 1, s2)
            &&& supported_statements(statements, from + 1, s2.symbols.dom())
            &&& s2.scopes.len() >= 1
            &&& s2.current().len() == middle + 1
            &&& s2.constants == s1.constants
            &&& s2.symbols == (if s is Let {
                st.symbols.insert(s->Let_1.kind->Ident_0, st.definitions as u16)
            } else {
                st.symbols
            })
            &&& s2.definitions == st.definitions + definitions_in_statement(s)
            &&& definitions_in_statement(s) == (if s is Let {
                1nat
            } else {
                0nat
            })
            &&& done.current().len() >= middle + 1
            &&& agree(done.current(), s1.current(), 0, middle)
            &&& done.current()[middle] == statement_instruction(s, st.definitions)
            &&& agree(done.constants, s1.constants, 0, s1.constants.len() as int)
            &&& constants_in_statements(statements, from) == constants_in_expression(e)
                + constants_in_statements(statements, from + 1)
            &&& definitions_in_statements(statements, from) == definitions_in_statement(s)
                + definitions_in_statements(statements, from + 1)
        }),
{
    reveal(code_of);
    reveal(code_of_all);
    reveal(same);
    let s = statements[from as int];
    let e = statement_expression(s);
    let s1 = compile_expression(e, st);
    let s2 = compile_statement(s, st);
    let done = compile_statements(statements, from, st);
    lemma_expression_keeps(e, st);
    lemma_statement_retains(s, st);
    assert(s2 == statement_end(s, s1));
    assert(done == compile_statements(statements, from + 1, s2));
    match s {
        StmtView::Let(_, ident, _) => {
            assert(s2.symbols.dom() =~= st.symbols.dom().insert(ident.kind->Ident_0));
        },
        _ => {},
    }
    lemma_statements_retain(statements, from + 1, s2);
    assert(constants_in_statement(s) == constants_in_expression(e));
    lemma_expression_defines_nothing(e, st.symbols.dom());
    assert forall|j: int| 0 <= j < s1.current().len() implies #[trigger] done.current()[j]
        == s1.current()[j] by {
        assert(done.current()[j] == s2.current()[j]);
    }
    assert(done.current()[s1.current().len() as int] == s2.current()[s1.current().len() as int]);
    assert forall|j: int| 0 <= j < s1.constants.len() implies #[trigger] done.constants[j]
        == s1.constants[j] by {
        assert(done.constants[j] == s2.constants[j]);
    }
}

/// After a block that stands as a statement: the instructions of its
/// statements, and then those of the statements after it.
pub proof fn lemma_layout_block_statement(statements: Seq<StmtView>, from: nat, st: EmitterView)
    requires
        supported_statements(statements, from, st.symbols.dom()),
        from < statements.len(),
        is_block_statement(statements[from as int]),
        st.scopes.len() >= 1,
    ensures
        ({
            let inner = block_of(statements[from as int]);
            let s2 = code_of_all(inner, 0, st);
            let done = code_of_all(statements, from, st);
            let middle = s2.current().len() as int;
            &&& is_sequence(inner)
            &&& supported_statements(inner, 0, st.symbols.dom())
            &&& done == code_of_all(statements, from + 1, s2)
            &&& supported_statements(statements, from + 1, s2.symbols.dom())
            &&& s2.scopes.len() >= 1
            &&& st.current().len() <= middle <= done.current().len()
            &&& agree(done.current(), s2.current(), 0, middle)
            &&& agree(done.constants, s2.constants, 0, s2.constants.len() as int)
            &&& s2.constants.len() == st.constants.len() + constants_in_statements(inner, 0)
            &&& s2.definitions == st.definitions + definitions_in_statements(inner, 0)
            &&& constants_in_statements(statements, from) == constants_in_statements(inner, 0)
                + constants_in_statements(statements, from + 1)
            &&& definitions_in_statements(statements, from) == definitions_in_statements(
                inner,
                0,
            ) + definitions_in_statements(statements, from + 1)
        }),
{
    reveal(code_of_all);
    reveal(same);
    let s = statements[from as int];
    let inner = block_of(s);
    let s2 = compile_statements(inner, 0, st);
    let done = compile_statements(statements, from, st);
    lemma_statements_retain(inner, 0, st);
    lemma_block_statement_is_inner(inner, st);
    assert(done == compile_statements(statements, from + 1, s2));
    lemma_statements_retain(statements, from + 1, s2);
    assert(constants_in_statement(s) == constants_in_statements(inner, 0));
    assert(definitions_in_statement(s) == definitions_in_statements(inner, 0));
}

/// Nothing is left to compile after the last statement.
pub proof fn lemma_layout_end(statements: Seq<StmtView>, from: nat, st: EmitterView)
    requires
        from >= statements.len(),
    ensures
        code_of_all(statements, from, st) == st,
{
    reveal(code_of_all);
}

} // verus!
