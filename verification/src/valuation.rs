//! What the supported forms are worth: the value of each, from the values
//! of its parts, in the outermost scope.

use vstd::prelude::*;
use crate::ast::{ExprView, StmtView};
use crate::compilation::{binary_instruction, unary_instruction};
use crate::env::{bind, lookup, ScopeView};
use crate::layout::literal_value;
use crate::machine::{apply_binary, apply_unary, then_binary, then_next, then_unary};
use crate::object::ObjectView;
use crate::semantics::{
    eval_binary, eval_block, eval_expression, eval_statement, eval_statements, eval_unary,
    located, Evaluated,
};
use crate::subset::{plain, supported_expression};
use crate::token::{TokenKind, TokenView};

verus! {

/// The value of an expression in the outermost scope.
#[verifier::opaque]
pub open spec fn value_of(e: ExprView, scopes: Seq<ScopeView>, depth: nat) -> Evaluated {
    eval_expression(e, 0, scopes, depth)
}

/// The value of the statements from offset `from` on in the outermost
/// scope, where `last` is the value of the statement before them.
#[verifier::opaque]
pub open spec fn value_of_all(
    statements: Seq<StmtView>,
    from: nat,
    last: ObjectView,
    scopes: Seq<ScopeView>,
    depth: nat,
) -> Evaluated {
    eval_statements(statements, from, last, 0, scopes, depth)
}

/// What an evaluation came to: its value, or its issue.
pub open spec fn outcome(evaluated: Evaluated) -> Result<ObjectView, Seq<char>> {
    match evaluated {
        Ok((value, _)) => Ok(value),
        Err(e) => Err(e.issue),
    }
}

/// Whether an evaluation, if it gave a value, gave a plain one and left the
/// scopes as they were.
pub open spec fn pure(evaluated: Evaluated, scopes: Seq<ScopeView>) -> bool {
    match evaluated {
        Ok((value, after)) => after == scopes && plain(value),
        Err(_) => true,
    }
}

/// Whether the globals of the machine mirror the outermost scope: every
/// defined name is bound there, its slot holds its value, and the value is
/// plain.
#[verifier::opaque]
pub open spec fn mirrors(
    symbols: Map<Seq<char>, u16>,
    globals: Map<u16, ObjectView>,
    scopes: Seq<ScopeView>,
) -> bool {
    &&& scopes.len() >= 1
    &&& forall|name: Seq<char>| #[trigger]
        symbols.contains_key(name) ==> {
            &&& scopes[0].store.contains_key(name)
            &&& globals.contains_key(symbols[name])
            &&& globals[symbols[name]] == scopes[0].store[name]
            &&& plain(scopes[0].store[name])
        }
}

/// Whether every defined name has a slot below `definitions`.
#[verifier::opaque]
pub open spec fn slots_below(symbols: Map<Seq<char>, u16>, definitions: nat) -> bool {
    forall|name: Seq<char>| #[trigger] symbols.contains_key(name) ==> symbols[name] < definitions
}

/// Nothing is defined at the start, so nothing is to be mirrored.
pub proof fn lemma_mirrors_nothing(globals: Map<u16, ObjectView>, scopes: Seq<ScopeView>)
    requires
        scopes.len() >= 1,
    ensures
        mirrors(Map::empty(), globals, scopes),
        slots_below(Map::empty(), 0),
{
    reveal(mirrors);
    reveal(slots_below);
}

/// A `let` keeps the mirror: the name is bound in the scope, and the next
/// free slot holds the value.
pub proof fn lemma_mirrors_define(
    symbols: Map<Seq<char>, u16>,
    globals: Map<u16, ObjectView>,
    scopes: Seq<ScopeView>,
    definitions: nat,
    name: Seq<char>,
    value: ObjectView,
)
    requires
        mirrors(symbols, globals, scopes),
        slots_below(symbols, definitions),
        definitions < 0xffff,
        plain(value),
    ensures
        mirrors(
            symbols.insert(name, definitions as u16),
            globals.insert(definitions as u16, value),
            bind(scopes, 0, name, value),
        ),
        slots_below(symbols.insert(name, definitions as u16), definitions + 1),
{
    reveal(mirrors);
    reveal(slots_below);
    let slot = definitions as u16;
    let symbols2 = symbols.insert(name, slot);
    let globals2 = globals.insert(slot, value);
    let bound = bind(scopes, 0, name, value);
    assert forall|other: Seq<char>| #[trigger] symbols2.contains_key(other) implies {
        &&& bound[0].store.contains_key(other)
        &&& globals2.contains_key(symbols2[other])
        &&& globals2[symbols2[other]] == bound[0].store[other]
        &&& plain(bound[0].store[other])
    } by {
        if other != name {
            assert(symbols.contains_key(other));
        }
    }
    assert forall|other: Seq<char>| #[trigger] symbols2.contains_key(other) implies symbols2[other]
        < definitions + 1 by {
        if other != name {
            assert(symbols.contains_key(other));
        }
    }
}

/// A defined name has the value that its global holds.
pub proof fn lemma_value_ident(
    token: TokenView,
    symbols: Map<Seq<char>, u16>,
    globals: Map<u16, ObjectView>,
    scopes: Seq<ScopeView>,
    depth: nat,
)
    requires
        token.kind is Ident,
        symbols.contains_key(token.kind->Ident_0),
        mirrors(symbols, globals, scopes),
    ensures
        globals.contains_key(symbols[token.kind->Ident_0]),
        value_of(ExprView::Ident(token), scopes, depth) == Ok::<
            (ObjectView, Seq<ScopeView>),
            crate::semantics::EvalErrorView,
        >((globals[symbols[token.kind->Ident_0]], scopes)),
        plain(globals[symbols[token.kind->Ident_0]]),
{
    reveal(mirrors);
    reveal(value_of);
}

/// A literal has its own value.
pub proof fn lemma_value_literal(
    e: ExprView,
    names: Set<Seq<char>>,
    scopes: Seq<ScopeView>,
    depth: nat,
)
    requires
        e is Int || e is Bool,
        supported_expression(e, names),
    ensures
        value_of(e, scopes, depth) == Ok::<
            (ObjectView, Seq<ScopeView>),
            crate::semantics::EvalErrorView,
        >((literal_value(e), scopes)),
        plain(literal_value(e)),
{
    reveal(value_of);
}

/// A prefix operator has the value that its instruction makes of the value
/// of the operand.
pub proof fn lemma_value_unary(
    operator: TokenView,
    operand: ExprView,
    scopes: Seq<ScopeView>,
    depth: nat,
)
    requires
        unary_instruction(operator.kind) is Some,
        pure(value_of(operand, scopes, depth), scopes),
    ensures
        pure(value_of(ExprView::Unary(operator, Box::new(operand)), scopes, depth), scopes),
        outcome(value_of(ExprView::Unary(operator, Box::new(operand)), scopes, depth))
            == then_unary(
            outcome(value_of(operand, scopes, depth)),
            unary_instruction(operator.kind)->Some_0,
        ),
{
    reveal(value_of);
}

/// A binary operator has the value that its instruction makes of the
/// values of the operands.
pub proof fn lemma_value_binary(
    operator: TokenView,
    lhs: ExprView,
    rhs: ExprView,
    scopes: Seq<ScopeView>,
    depth: nat,
)
    requires
        binary_instruction(operator.kind) is Some,
        pure(value_of(lhs, scopes, depth), scopes),
        value_of(lhs, scopes, depth) is Ok ==> pure(value_of(rhs, scopes, depth), scopes),
    ensures
        pure(
            value_of(ExprView::Binary(operator, Box::new(lhs), Box::new(rhs)), scopes, depth),
            scopes,
        ),
        outcome(
            value_of(ExprView::Binary(operator, Box::new(lhs), Box::new(rhs)), scopes, depth),
        ) == then_binary(
            outcome(value_of(lhs, scopes, depth)),
            outcome(value_of(rhs, scopes, depth)),
            binary_instruction(operator.kind)->Some_0,
        ),
{
    reveal(value_of);
}

/// A block has the value of its statements.
pub proof fn lemma_value_block(statements: Seq<StmtView>, scopes: Seq<ScopeView>, depth: nat)
    ensures
        value_of(ExprView::Block(statements), scopes, depth) == value_of_all(
            statements,
            0,
            ObjectView::Null,
            scopes,
            depth,
        ),
{
    reveal(value_of);
    reveal(value_of_all);
    assert(eval_block(statements, 0, scopes, depth) == eval_statements(
        statements,
        0,
        ObjectView::Null,
        0,
        scopes,
        depth,
    ));
}

/// The branch of an `if` that the value of the condition chooses.
pub open spec fn chosen(
    decision: Result<ObjectView, Seq<char>>,
    action: Result<ObjectView, Seq<char>>,
    other: Result<ObjectView, Seq<char>>,
) -> Result<ObjectView, Seq<char>> {
    if decision is Ok && decision->Ok_0.truthy() {
        action
    } else {
        other
    }
}

/// An `if` has the value of the branch that its condition chooses.
pub proof fn lemma_value_if(
    token: TokenView,
    condition: ExprView,
    action: Seq<StmtView>,
    other: Seq<StmtView>,
    scopes: Seq<ScopeView>,
    depth: nat,
)
    requires
        pure(value_of(condition, scopes, depth), scopes),
        value_of(condition, scopes, depth) is Ok ==> if outcome(
            value_of(condition, scopes, depth),
        )->Ok_0.truthy() {
            pure(value_of_all(action, 0, ObjectView::Null, scopes, depth), scopes)
        } else {
            pure(value_of_all(other, 0, ObjectView::Null, scopes, depth), scopes)
        },
    ensures
        pure(
            value_of(
                ExprView::If(token, Box::new(condition), action, Some(other)),
                scopes,
                depth,
            ),
            scopes,
        ),
        outcome(
            value_of(
                ExprView::If(token, Box::new(condition), action, Some(other)),
                scopes,
                depth,
            ),
        ) == then_next(
            outcome(value_of(condition, scopes, depth)),
            chosen(
                outcome(value_of(condition, scopes, depth)),
                outcome(value_of_all(action, 0, ObjectView::Null, scopes, depth)),
                outcome(value_of_all(other, 0, ObjectView::Null, scopes, depth)),
            ),
        ),
{
    reveal(value_of);
    reveal(value_of_all);
    assert(eval_block(action, 0, scopes, depth) == eval_statements(
        action,
        0,
        ObjectView::Null,
        0,
        scopes,
        depth,
    ));
    assert(eval_block(other, 0, scopes, depth) == eval_statements(
        other,
        0,
        ObjectView::Null,
        0,
        scopes,
        depth,
    ));
}

/// The value of a branch from a statement on: that of the statements after
/// it, or its own if it is the last.
pub open spec fn branch_rest(
    statements: Seq<StmtView>,
    from: nat,
    first: Evaluated,
    scopes: Seq<ScopeView>,
    depth: nat,
) -> Evaluated {
    if first is Ok && from + 1 < statements.len() {
        value_of_all(statements, from + 1, first->Ok_0.0, scopes, depth)
    } else {
        first
    }
}

/// A branch has the value of its last statement.
pub proof fn lemma_value_branch(
    statements: Seq<StmtView>,
    from: nat,
    last: ObjectView,
    scopes: Seq<ScopeView>,
    depth: nat,
)
    requires
        from < statements.len(),
        statements[from as int] is Expression,
        pure(value_of(statements[from as int]->Expression_0, scopes, depth), scopes),
    ensures
        value_of_all(statements, from, last, scopes, depth) == branch_rest(
            statements,
            from,
            value_of(statements[from as int]->Expression_0, scopes, depth),
            scopes,
            depth,
        ),
{
    reveal(value_of);
    reveal(value_of_all);
    let e = statements[from as int]->Expression_0;
    assert(eval_statement(statements[from as int], 0, scopes, depth) == eval_expression(
        e,
        0,
        scopes,
        depth,
    ));
    match eval_expression(e, 0, scopes, depth) {
        Ok((value, after)) => {
            if from + 1 >= statements.len() {
                assert(eval_statements(statements, from + 1, value, 0, after, depth) == Ok::<
                    (ObjectView, Seq<ScopeView>),
                    crate::semantics::EvalErrorView,
                >((value, after)));
            }
        },
        Err(_) => {},
    }
}

/// The value that a statement of a program hands on to the statements
/// after it, where `value` is the value of its expression.
pub open spec fn handed_on(s: StmtView, value: ObjectView) -> ObjectView {
    if s is Let {
        ObjectView::Null
    } else {
        value
    }
}

/// The scopes after a statement of a program, where `value` is the value
/// of its expression.
pub open spec fn scopes_after(s: StmtView, scopes: Seq<ScopeView>, value: ObjectView) -> Seq<
    ScopeView,
> {
    match s {
        StmtView::Let(_, ident, _) => match ident.kind {
            TokenKind::Ident(name) => bind(scopes, 0, name, value),
            _ => scopes,
        },
        _ => scopes,
    }
}

/// The value of a program from a statement on: an error if its expression
/// fails, else the value of the statements after it.
pub open spec fn program_rest(
    statements: Seq<StmtView>,
    from: nat,
    first: Evaluated,
    scopes: Seq<ScopeView>,
    depth: nat,
) -> Evaluated {
    match first {
        Err(e) => Err(e),
        Ok((value, _)) => value_of_all(
            statements,
            from + 1,
            handed_on(statements[from as int], value),
            scopes_after(statements[from as int], scopes, value),
            depth,
        ),
    }
}

/// A program has the value of the statements after its first, evaluated
/// in the scopes that the first leaves.
pub proof fn lemma_value_statements(
    statements: Seq<StmtView>,
    from: nat,
    last: ObjectView,
    scopes: Seq<ScopeView>,
    depth: nat,
)
    requires
        from < statements.len(),
        !(statements[from as int] is Return),
        statements[from as int] is Let ==> statements[from as int]->Let_1.kind is Ident,
        pure(
            value_of(crate::layout::statement_expression(statements[from as int]), scopes, depth),
            scopes,
        ),
    ensures
        value_of_all(statements, from, last, scopes, depth) == program_rest(
            statements,
            from,
            value_of(crate::layout::statement_expression(statements[from as int]), scopes, depth),
            scopes,
            depth,
        ),
{
    reveal(value_of);
    reveal(value_of_all);
    let s = statements[from as int];
    let e = crate::layout::statement_expression(s);
    let first = eval_expression(e, 0, scopes, depth);
    let whole = eval_statements(statements, from, last, 0, scopes, depth);
    let stated = eval_statement(s, 0, scopes, depth);
    match first {
        Err(x) => {
            assert(stated == Err::<(ObjectView, Seq<ScopeView>), crate::semantics::EvalErrorView>(
                x,
            ));
        },
        Ok((value, after)) => {
            assert(after == scopes);
            match s {
                StmtView::Let(_, ident, _) => {
                    let name = ident.kind->Ident_0;
                    assert(stated == Ok::<
                        (ObjectView, Seq<ScopeView>),
                        crate::semantics::EvalErrorView,
                    >((ObjectView::Null, bind(scopes, 0, name, value))));
                },
                _ => {
                    assert(stated == first);
                },
            }
        },
    }
}

/// The value of a program from a block on: an error if the block fails,
/// its value if that is marked as returned, and else the value of the
/// statements after it, evaluated in the scopes that the block leaves.
pub open spec fn after_block(
    statements: Seq<StmtView>,
    from: nat,
    inner: Evaluated,
    depth: nat,
) -> Evaluated {
    match inner {
        Err(e) => Err(e),
        Ok((value, after)) => if value is Return {
            Ok((value, after))
        } else {
            value_of_all(statements, from + 1, value, after, depth)
        },
    }
}

/// A block that stands as a statement is worth what its statements are
/// worth, one after the other, before the statements after it.
pub proof fn lemma_value_block_statement(
    statements: Seq<StmtView>,
    from: nat,
    last: ObjectView,
    scopes: Seq<ScopeView>,
    depth: nat,
)
    requires
        from < statements.len(),
        crate::layout::is_block_statement(statements[from as int]),
    ensures
        value_of_all(statements, from, last, scopes, depth) == after_block(
            statements,
            from,
            value_of_all(
                crate::layout::block_of(statements[from as int]),
                0,
                ObjectView::Null,
                scopes,
                depth,
            ),
            depth,
        ),
{
    reveal(value_of_all);
    let s = statements[from as int];
    let inner = crate::layout::block_of(s);
    assert(eval_statement(s, 0, scopes, depth) == eval_expression(
        ExprView::Block(inner),
        0,
        scopes,
        depth,
    ));
    assert(eval_expression(ExprView::Block(inner), 0, scopes, depth) == eval_block(
        inner,
        0,
        scopes,
        depth,
    ));
    assert(eval_block(inner, 0, scopes, depth) == eval_statements(
        inner,
        0,
        ObjectView::Null,
        0,
        scopes,
        depth,
    ));
}

/// After the last statement the value is the one that was handed on.
pub proof fn lemma_value_end(
    statements: Seq<StmtView>,
    from: nat,
    last: ObjectView,
    scopes: Seq<ScopeView>,
    depth: nat,
)
    requires
        from >= statements.len(),
    ensures
        value_of_all(statements, from, last, scopes, depth) == Ok::<
            (ObjectView, Seq<ScopeView>),
            crate::semantics::EvalErrorView,
        >((last, scopes)),
{
    reveal(value_of_all);
}

} // verus!
