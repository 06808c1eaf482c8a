//! The programs that both the evaluator and the compiler support: a
//! sequence of `let` and expression statements over literals, defined
//! names, operators, blocks and `if` with both branches. A block that is an
//! operand, and a branch, is one or more expression statements; a block
//! that is a statement may hold `let` as well, and ends in an expression.

use vstd::prelude::*;
use crate::ast::{ExprView, StmtView};
use crate::compilation::{
    binary_instruction, definitions_in_expression, definitions_in_statement,
    definitions_in_statements, names_after_expression, names_after_statement,
    names_after_statements, unary_instruction,
};
use crate::object::ObjectView;
use crate::text::parse_integer;
use crate::token::TokenKind;

verus! {

/// Whether a value is an integer or a boolean.
pub open spec fn plain(v: ObjectView) -> bool {
    v is Int || v is Bool
}

/// Whether both the evaluator and the compiler support an expression, where
/// `names` are the names defined so far.
pub open spec fn supported_expression(e: ExprView, names: Set<Seq<char>>) -> bool
    decreases e, 0nat,
{
    match e {
        ExprView::Ident(token) => match token.kind {
            TokenKind::Ident(name) => names.contains(name),
            _ => false,
        },
        ExprView::Int(token) => match token.kind {
            TokenKind::Int(digits) => parse_integer(digits) is Ok,
            _ => false,
        },
        ExprView::Bool(token) => token.kind is True || token.kind is False,
        ExprView::Unary(operator, operand) => unary_instruction(operator.kind) is Some
            && supported_expression(*operand, names),
        ExprView::Binary(operator, lhs, rhs) => binary_instruction(operator.kind) is Some
            && supported_expression(*lhs, names) && supported_expression(*rhs, names),
        ExprView::If(_, condition, action, alternate) => supported_expression(*condition, names)
            && supported_branch(action, 0, names) && match alternate {
            Some(statements) => supported_branch(statements, 0, names),
            None => false,
        },
        ExprView::Block(statements) => supported_branch(statements, 0, names),
        _ => false,
    }
}

/// Whether the statements from offset `from` on are a supported branch of
/// an `if`: at least one statement, and each a supported expression.
pub open spec fn supported_branch(statements: Seq<StmtView>, from: nat, names: Set<Seq<char>>)
    -> bool
    decreases statements, statements.len() - from,
{
    from < statements.len() && match statements[from as int] {
        StmtView::Expression(e) => supported_expression(e, names),
        _ => false,
    } && (from + 1 == statements.len() || supported_branch(statements, from + 1, names))
}

/// Whether a block may stand as a statement of a supported program: it has
/// a last statement, and that is an expression, whose value is the block's.
pub open spec fn is_sequence(statements: Seq<StmtView>) -> bool {
    statements.len() > 0 && statements.last() is Expression
}

/// Whether the statements from offset `from` on are a supported program:
/// each is the `let` of a supported expression, which defines its name for
/// the statements after it, or a supported expression, or a block of such
/// statements that ends in an expression.
pub open spec fn supported_statements(statements: Seq<StmtView>, from: nat, names: Set<Seq<char>>)
    -> bool
    decreases statements, statements.len() - from,
{
    from >= statements.len() || match statements[from as int] {
        StmtView::Let(_, ident, e) => match ident.kind {
            TokenKind::Ident(name) => supported_expression(e, names) && supported_statements(
                statements,
                from + 1,
                names.insert(name),
            ),
            _ => false,
        },
        StmtView::Expression(e) => match e {
            ExprView::Block(inner) => is_sequence(inner) && supported_statements(inner, 0, names)
                && supported_statements(
                statements,
                from + 1,
                names_after_statements(inner, 0, names),
            ),
            _ => supported_expression(e, names) && supported_statements(
                statements,
                from + 1,
                names,
            ),
        },
        StmtView::Return(_, _) => false,
    }
}

/// A supported expression defines no name.
pub proof fn lemma_expression_names(e: ExprView, names: Set<Seq<char>>)
    requires
        supported_expression(e, names),
    ensures
        names_after_expression(e, names) == names,
    decreases e, 0nat,
{
    match e {
        ExprView::Unary(_, operand) => {
            lemma_expression_names(*operand, names);
        },
        ExprView::Binary(_, lhs, rhs) => {
            lemma_expression_names(*lhs, names);
            lemma_expression_names(*rhs, names);
        },
        ExprView::If(_, condition, action, alternate) => {
            lemma_expression_names(*condition, names);
            lemma_branch_names(action, 0, names);
            lemma_branch_names(alternate->Some_0, 0, names);
        },
        ExprView::Block(statements) => {
            lemma_branch_names(statements, 0, names);
        },
        _ => {},
    }
}

/// A supported branch defines no name.
pub proof fn lemma_branch_names(statements: Seq<StmtView>, from: nat, names: Set<Seq<char>>)
    requires
        supported_branch(statements, from, names),
    ensures
        names_after_statements(statements, from, names) == names,
    decreases statements, statements.len() - from,
{
    lemma_expression_names(statements[from as int]->Expression_0, names);
    assert(names_after_statement(statements[from as int], names) == names);
    if from + 1 < statements.len() {
        lemma_branch_names(statements, from + 1, names);
    } else {
        assert(names_after_statements(statements, from + 1, names) == names);
    }
}

/// A supported expression holds no `let`.
pub proof fn lemma_expression_defines_nothing(e: ExprView, names: Set<Seq<char>>)
    requires
        supported_expression(e, names),
    ensures
        definitions_in_expression(e) == 0,
    decreases e, 0nat,
{
    match e {
        ExprView::Unary(_, operand) => {
            lemma_expression_defines_nothing(*operand, names);
        },
        ExprView::Binary(_, lhs, rhs) => {
            lemma_expression_defines_nothing(*lhs, names);
            lemma_expression_defines_nothing(*rhs, names);
        },
        ExprView::If(_, condition, action, alternate) => {
            lemma_expression_defines_nothing(*condition, names);
            lemma_branch_defines_nothing(action, 0, names);
            lemma_branch_defines_nothing(alternate->Some_0, 0, names);
        },
        ExprView::Block(statements) => {
            lemma_branch_defines_nothing(statements, 0, names);
        },
        _ => {},
    }
}

/// A supported branch holds no `let`.
pub proof fn lemma_branch_defines_nothing(
    statements: Seq<StmtView>,
    from: nat,
    names: Set<Seq<char>>,
)
    requires
        supported_branch(statements, from, names),
    ensures
        definitions_in_statements(statements, from) == 0,
    decreases statements, statements.len() - from,
{
    lemma_expression_defines_nothing(statements[from as int]->Expression_0, names);
    assert(definitions_in_statement(statements[from as int]) == 0);
    if from + 1 < statements.len() {
        lemma_branch_defines_nothing(statements, from + 1, names);
    } else {
        assert(definitions_in_statements(statements, from + 1) == 0);
    }
}

} // verus!
