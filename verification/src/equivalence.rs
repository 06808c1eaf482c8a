//! The evaluator and the compiler agree: on the programs that both
//! support, what the machine computes from the compiled instructions is
//! what evaluation yields.

use vstd::prelude::*;
use crate::ast::{ExprView, NodeView, StmtView};
use crate::bytecode::{capacity, linearize, Instruction, JUMP_WIDTH};
use crate::compilation::{
    compile_statements, constants_in_expression, constants_in_statements,
    definitions_in_statements, has_room, initial, EmitterView,
};
use crate::env::ScopeView;
use crate::layout::{
    agree, alternative_start, code_of, code_of_all, consequence_start, lemma_agree_at,
    lemma_agree_chain, lemma_agree_self, lemma_layout_binary, lemma_layout_block,
    lemma_layout_branch,
    lemma_layout_end, lemma_layout_expression, lemma_layout_ident, lemma_layout_if,
    lemma_layout_block_statement, lemma_layout_literal, lemma_layout_statements,
    lemma_layout_unary, literal_value, is_block_statement, block_of,
    statement_end, statement_expression,
};
use crate::machine::{
    after_pop, after_set, after_test, computes, finishes, lemma_computes_binary,
    lemma_computes_choice, lemma_computes_push, lemma_computes_sequence,
    lemma_computes_unary, lemma_finishes_after_expression, lemma_finishes_after_let,
    lemma_finishes_at_once, lemma_finishes_then, lemma_run_stops, lemma_step_constant,
    lemma_step_get_global, run,
    run_program, start, Machine,
};
use crate::object::ObjectView;
use crate::wire::{run_program_bytes, theorem_bytes_mean_instructions};
use crate::semantics::{eval_block, eval_node, eval_statements, root_scopes, Evaluated};
use crate::subset::{plain, supported_branch, supported_expression, supported_statements};
use crate::valuation::{
    chosen, handed_on, lemma_mirrors_define, lemma_mirrors_nothing, lemma_value_binary,
    lemma_value_block, lemma_value_branch, lemma_value_end, lemma_value_ident, lemma_value_if,
    lemma_value_block_statement, lemma_value_literal, lemma_value_statements,
    lemma_value_unary, mirrors, outcome, pure,
    scopes_after, slots_below, value_of, value_of_all,
};

verus! {

/// Whether the machine stands at the instructions that were compiled from
/// the state `st` up to the instruction `end` of the state `done`: the code
/// holds those instructions, the constants those of `done`, and the
/// globals mirror the scope.
pub open spec fn placed(
    st: EmitterView,
    done: EmitterView,
    end: int,
    code: Seq<Instruction>,
    constants: Seq<ObjectView>,
    m: Machine,
    scopes: Seq<ScopeView>,
) -> bool {
    &&& st.scopes.len() >= 1
    &&& end <= usize::MAX
    &&& agree(code, done.current(), st.current().len() as int, end)
    &&& agree(constants, done.constants, 0, done.constants.len() as int)
    &&& m.pc == st.current().len()
    &&& mirrors(st.symbols, m.globals, scopes)
}

/// The machine does on the instructions of a supported expression what the
/// evaluator does on the expression.
pub proof fn lemma_expression_agrees(
    e: ExprView,
    st: EmitterView,
    code: Seq<Instruction>,
    constants: Seq<ObjectView>,
    m: Machine,
    scopes: Seq<ScopeView>,
    depth: nat,
)
    requires
        supported_expression(e, st.symbols.dom()),
        has_room(st, constants_in_expression(e), 0),
        placed(
            st,
            code_of(e, st),
            code_of(e, st).current().len() as int,
            code,
            constants,
            m,
            scopes,
        ),
    ensures
        pure(value_of(e, scopes, depth), scopes),
        computes(
            code,
            constants,
            m,
            code_of(e, st).current().len(),
            outcome(value_of(e, scopes, depth)),
        ),
    decreases e, 1nat,
{
    let done = code_of(e, st);
    let start = st.current().len() as int;
    let end = done.current().len() as int;
    lemma_layout_expression(e, st);
    match e {
        ExprView::Ident(token) => {
            lemma_layout_ident(token, st);
            lemma_value_ident(token, st.symbols, m.globals, scopes, depth);
            lemma_agree_at(code, done.current(), start, end, start);
            lemma_step_get_global(code, constants, m);
            lemma_computes_push(
                code,
                constants,
                m,
                m.globals[st.symbols[token.kind->Ident_0]],
            );
        },
        ExprView::Int(_) | ExprView::Bool(_) => {
            lemma_layout_literal(e, st);
            lemma_value_literal(e, st.symbols.dom(), scopes, depth);
            lemma_agree_at(code, done.current(), start, end, start);
            let k = st.constants.len() as int;
            lemma_agree_at(constants, done.constants, 0, done.constants.len() as int, k);
            lemma_step_constant(code, constants, m);
            lemma_computes_push(code, constants, m, literal_value(e));
        },
        ExprView::Unary(operator, operand) => {
            lemma_layout_unary(operator, *operand, st);
            let s1 = code_of(*operand, st);
            lemma_layout_expression(*operand, st);
            let middle = s1.current().len() as int;
            lemma_agree_chain(
                code,
                done.current(),
                s1.current(),
                start,
                end,
                0,
                middle,
                start,
                middle,
            );
            lemma_agree_chain(
                constants,
                done.constants,
                s1.constants,
                0,
                done.constants.len() as int,
                0,
                s1.constants.len() as int,
                0,
                s1.constants.len() as int,
            );
            lemma_expression_agrees(*operand, st, code, constants, m, scopes, depth);
            lemma_value_unary(operator, *operand, scopes, depth);
            lemma_agree_at(code, done.current(), start, end, middle);
            lemma_computes_unary(
                code,
                constants,
                m,
                middle as nat,
                outcome(value_of(*operand, scopes, depth)),
            );
        },
        ExprView::Binary(operator, lhs, rhs) => {
            lemma_layout_binary(operator, *lhs, *rhs, st);
            let s1 = code_of(*lhs, st);
            let s2 = code_of(*rhs, s1);
            lemma_layout_expression(*lhs, st);
            lemma_layout_expression(*rhs, s1);
            let first = s1.current().len() as int;
            let second = s2.current().len() as int;
            lemma_agree_chain(
                code,
                done.current(),
                s2.current(),
                start,
                end,
                0,
                second,
                start,
                second,
            );
            lemma_agree_chain(
                code,
                s2.current(),
                s1.current(),
                start,
                second,
                0,
                first,
                start,
                first,
            );
            lemma_agree_chain(
                constants,
                done.constants,
                s2.constants,
                0,
                done.constants.len() as int,
                0,
                s2.constants.len() as int,
                0,
                s2.constants.len() as int,
            );
            lemma_agree_chain(
                constants,
                s2.constants,
                s1.constants,
                0,
                s2.constants.len() as int,
                0,
                s1.constants.len() as int,
                0,
                s1.constants.len() as int,
            );
            lemma_expression_agrees(*lhs, st, code, constants, m, scopes, depth);
            if value_of(*lhs, scopes, depth) is Ok {
                let m1 = run(code, constants, m, first as nat)->Ok_0;
                lemma_agree_self(s2.current(), first, second);
                lemma_agree_chain(
                    code,
                    s2.current(),
                    s2.current(),
                    start,
                    second,
                    first,
                    second,
                    first,
                    second,
                );
                lemma_expression_agrees(*rhs, s1, code, constants, m1, scopes, depth);
            }
            lemma_value_binary(operator, *lhs, *rhs, scopes, depth);
            lemma_agree_at(code, done.current(), start, end, second);
            lemma_computes_binary(
                code,
                constants,
                m,
                first as nat,
                second as nat,
                outcome(value_of(*lhs, scopes, depth)),
                outcome(value_of(*rhs, scopes, depth)),
            );
        },
        ExprView::If(token, condition, action, alternate) => {
            let other = alternate->Some_0;
            lemma_layout_if(token, *condition, action, other, st);
            let s1 = code_of(*condition, st);
            let s2 = consequence_start(s1);
            let s3 = code_of_all(action, 0, s2);
            let test = s1.current().len() as int;
            let skip = s3.current().len() - 1;
            let s6 = alternative_start(s3, test);
            let s7 = code_of_all(other, 0, s6);
            lemma_layout_expression(*condition, st);
            lemma_agree_chain(code, done.current(), s1.current(), start, end, 0, test, start, test);
            lemma_agree_chain(
                constants,
                done.constants,
                s1.constants,
                0,
                done.constants.len() as int,
                0,
                s1.constants.len() as int,
                0,
                s1.constants.len() as int,
            );
            lemma_expression_agrees(*condition, st, code, constants, m, scopes, depth);
            let decision = outcome(value_of(*condition, scopes, depth));
            if decision is Ok {
                let m1 = run(code, constants, m, test as nat)->Ok_0;
                let m2 = after_test(m1, skip as nat);
                assert(m1.top(0) == decision->Ok_0);
                if decision->Ok_0.truthy() {
                    lemma_agree_chain(
                        code,
                        done.current(),
                        s3.current(),
                        start,
                        end,
                        test + 1,
                        skip,
                        test + 1,
                        skip,
                    );
                    lemma_agree_chain(
                        constants,
                        done.constants,
                        s3.constants,
                        0,
                        done.constants.len() as int,
                        0,
                        s3.constants.len() as int,
                        0,
                        s3.constants.len() as int,
                    );
                    lemma_branch_agrees(
                        action,
                        0,
                        ObjectView::Null,
                        s2,
                        code,
                        constants,
                        m2,
                        scopes,
                        depth,
                    );
                } else {
                    lemma_agree_chain(
                        code,
                        done.current(),
                        s7.current(),
                        start,
                        end,
                        skip + 1,
                        end,
                        skip + 1,
                        end,
                    );
                    lemma_branch_agrees(
                        other,
                        0,
                        ObjectView::Null,
                        s6,
                        code,
                        constants,
                        m2,
                        scopes,
                        depth,
                    );
                }
            }
            lemma_value_if(token, *condition, action, other, scopes, depth);
            lemma_agree_at(code, done.current(), start, end, test);
            lemma_agree_at(code, done.current(), start, end, skip);
            lemma_computes_choice(
                code,
                constants,
                m,
                test as nat,
                skip as nat,
                end as nat,
                decision,
                chosen(
                    decision,
                    outcome(value_of_all(action, 0, ObjectView::Null, scopes, depth)),
                    outcome(value_of_all(other, 0, ObjectView::Null, scopes, depth)),
                ),
            );
        },
        ExprView::Block(statements) => {
            lemma_layout_block(statements, st);
            let lowered = code_of_all(statements, 0, st);
            lemma_agree_chain(
                code,
                done.current(),
                lowered.current(),
                start,
                end,
                0,
                end,
                start,
                end,
            );
            lemma_branch_agrees(
                statements,
                0,
                ObjectView::Null,
                st,
                code,
                constants,
                m,
                scopes,
                depth,
            );
            lemma_value_block(statements, scopes, depth);
        },
        _ => {},
    }
}

/// The machine does on the instructions of a supported branch, without the
/// last, what the evaluator does on the branch.
pub proof fn lemma_branch_agrees(
    statements: Seq<StmtView>,
    from: nat,
    last: ObjectView,
    st: EmitterView,
    code: Seq<Instruction>,
    constants: Seq<ObjectView>,
    m: Machine,
    scopes: Seq<ScopeView>,
    depth: nat,
)
    requires
        supported_branch(statements, from, st.symbols.dom()),
        has_room(st, constants_in_statements(statements, from), 0),
        placed(
            st,
            code_of_all(statements, from, st),
            code_of_all(statements, from, st).current().len() - 1,
            code,
            constants,
            m,
            scopes,
        ),
    ensures
        pure(value_of_all(statements, from, last, scopes, depth), scopes),
        computes(
            code,
            constants,
            m,
            (code_of_all(statements, from, st).current().len() - 1) as nat,
            outcome(value_of_all(statements, from, last, scopes, depth)),
        ),
    decreases statements, statements.len() - from,
{
    let done = code_of_all(statements, from, st);
    let start = st.current().len() as int;
    let end = done.current().len() - 1;
    let e = statements[from as int]->Expression_0;
    let s1 = code_of(e, st);
    let s2 = s1.push(Instruction::Pop);
    let middle = s1.current().len() as int;
    lemma_layout_branch(statements, from, st);
    lemma_layout_expression(e, st);
    lemma_agree_chain(code, done.current(), s1.current(), start, end, 0, middle, start, middle);
    lemma_agree_chain(
        constants,
        done.constants,
        s1.constants,
        0,
        done.constants.len() as int,
        0,
        s1.constants.len() as int,
        0,
        s1.constants.len() as int,
    );
    lemma_expression_agrees(e, st, code, constants, m, scopes, depth);
    lemma_value_branch(statements, from, last, scopes, depth);
    let first = value_of(e, scopes, depth);
    if first is Ok {
        if from + 1 < statements.len() {
            let m1 = run(code, constants, m, middle as nat)->Ok_0;
            let m2 = after_pop(m1);
            lemma_agree_self(done.current(), middle + 1, end);
            lemma_agree_chain(
                code,
                done.current(),
                done.current(),
                start,
                end,
                middle + 1,
                end,
                middle + 1,
                end,
            );
            lemma_branch_agrees(
                statements,
                from + 1,
                first->Ok_0.0,
                s2,
                code,
                constants,
                m2,
                scopes,
                depth,
            );
            lemma_agree_at(code, done.current(), start, end, middle);
            lemma_computes_sequence(
                code,
                constants,
                m,
                middle as nat,
                end as nat,
                outcome(first),
                outcome(value_of_all(statements, from + 1, first->Ok_0.0, scopes, depth)),
            );
        }
    } else {
        lemma_run_stops(code, constants, m, middle as nat, end as nat);
    }
}

/// Whether a run of statements left the machine as evaluation left the
/// scopes: the globals mirror the outermost scope under the names that are
/// defined after the statements.
pub open spec fn settled(
    evaluated: Evaluated,
    ran: Result<Machine, Seq<char>>,
    done: EmitterView,
) -> bool {
    match evaluated {
        Ok((_, after)) => {
            &&& ran is Ok
            &&& mirrors(done.symbols, ran->Ok_0.globals, after)
            &&& slots_below(done.symbols, done.definitions)
        },
        Err(_) => true,
    }
}

/// The machine does on the instructions of a block that stands as a
/// statement, and of the statements after it, what the evaluator does on
/// them.
pub proof fn lemma_block_statement_agrees(
    statements: Seq<StmtView>,
    from: nat,
    last: ObjectView,
    st: EmitterView,
    code: Seq<Instruction>,
    constants: Seq<ObjectView>,
    m: Machine,
    scopes: Seq<ScopeView>,
    depth: nat,
)
    requires
        from < statements.len(),
        is_block_statement(statements[from as int]),
        supported_statements(statements, from, st.symbols.dom()),
        has_room(
            st,
            constants_in_statements(statements, from),
            definitions_in_statements(statements, from),
        ),
        slots_below(st.symbols, st.definitions),
        placed(
            st,
            code_of_all(statements, from, st),
            code_of_all(statements, from, st).current().len() as int,
            code,
            constants,
            m,
            scopes,
        ),
        statements.last() is Expression,
    ensures
        finishes(
            code,
            constants,
            m,
            code_of_all(statements, from, st).current().len(),
            outcome(value_of_all(statements, from, last, scopes, depth)),
        ),
        value_of_all(statements, from, last, scopes, depth) is Ok ==> !(outcome(
            value_of_all(statements, from, last, scopes, depth),
        )->Ok_0 is Return),
        settled(
            value_of_all(statements, from, last, scopes, depth),
            run(code, constants, m, code_of_all(statements, from, st).current().len()),
            code_of_all(statements, from, st),
        ),
    decreases statements, statements.len() - from, 0nat,
{
    let done = code_of_all(statements, from, st);
    let start = st.current().len() as int;
    let end = done.current().len() as int;
    let s = statements[from as int];
    let inner = block_of(s);
    let s2 = code_of_all(inner, 0, st);
    let middle = s2.current().len() as int;
    assert(decreases_to!(statements => statements[from as int]));
    assert(decreases_to!(s => s->Expression_0));
    assert(decreases_to!(s->Expression_0 => s->Expression_0->Block_0));
    lemma_layout_block_statement(statements, from, st);
    lemma_agree_chain(code, done.current(), s2.current(), start, end, 0, middle, start, middle);
    lemma_agree_chain(
        constants,
        done.constants,
        s2.constants,
        0,
        done.constants.len() as int,
        0,
        s2.constants.len() as int,
        0,
        s2.constants.len() as int,
    );
    lemma_statements_agree(inner, 0, ObjectView::Null, st, code, constants, m, scopes, depth);
    lemma_value_block_statement(statements, from, last, scopes, depth);
    let first = value_of_all(inner, 0, ObjectView::Null, scopes, depth);
    if first is Ok {
        let value = first->Ok_0.0;
        let after = first->Ok_0.1;
        let m1 = run(code, constants, m, middle as nat)->Ok_0;
        lemma_agree_self(done.current(), middle, end);
        lemma_agree_chain(
            code,
            done.current(),
            done.current(),
            start,
            end,
            middle,
            end,
            middle,
            end,
        );
        lemma_statements_agree(
            statements,
            from + 1,
            value,
            s2,
            code,
            constants,
            m1,
            after,
            depth,
        );
        lemma_finishes_then(
            code,
            constants,
            m,
            middle as nat,
            end as nat,
            outcome(first),
            outcome(value_of_all(statements, from + 1, value, after, depth)),
        );
    } else {
        lemma_run_stops(code, constants, m, middle as nat, end as nat);
    }
}

/// The machine does on the instructions of supported statements what the
/// evaluator does on the statements.
pub proof fn lemma_statements_agree(
    statements: Seq<StmtView>,
    from: nat,
    last: ObjectView,
    st: EmitterView,
    code: Seq<Instruction>,
    constants: Seq<ObjectView>,
    m: Machine,
    scopes: Seq<ScopeView>,
    depth: nat,
)
    requires
        supported_statements(statements, from, st.symbols.dom()),
        has_room(
            st,
            constants_in_statements(statements, from),
            definitions_in_statements(statements, from),
        ),
        slots_below(st.symbols, st.definitions),
        placed(
            st,
            code_of_all(statements, from, st),
            code_of_all(statements, from, st).current().len() as int,
            code,
            constants,
            m,
            scopes,
        ),
        from < statements.len() ==> statements.last() is Expression,
        from >= statements.len() ==> m.last_popped == last,
        !(last is Return),
    ensures
        finishes(
            code,
            constants,
            m,
            code_of_all(statements, from, st).current().len(),
            outcome(value_of_all(statements, from, last, scopes, depth)),
        ),
        value_of_all(statements, from, last, scopes, depth) is Ok ==> !(outcome(
            value_of_all(statements, from, last, scopes, depth),
        )->Ok_0 is Return),
        settled(
            value_of_all(statements, from, last, scopes, depth),
            run(code, constants, m, code_of_all(statements, from, st).current().len()),
            code_of_all(statements, from, st),
        ),
    decreases statements, statements.len() - from, 1nat,
{
    let done = code_of_all(statements, from, st);
    let start = st.current().len() as int;
    let end = done.current().len() as int;
    if from >= statements.len() {
        lemma_layout_end(statements, from, st);
        lemma_value_end(statements, from, last, scopes, depth);
        lemma_finishes_at_once(code, constants, m);
    } else if is_block_statement(statements[from as int]) {
        lemma_block_statement_agrees(
            statements,
            from,
            last,
            st,
            code,
            constants,
            m,
            scopes,
            depth,
        );
    } else {
        let s = statements[from as int];
        let e = statement_expression(s);
        let s1 = code_of(e, st);
        let s2 = statement_end(s, s1);
        let middle = s1.current().len() as int;
        lemma_layout_statements(statements, from, st);
        lemma_layout_expression(e, st);
        lemma_agree_chain(code, done.current(), s1.current(), start, end, 0, middle, start, middle);
        lemma_agree_chain(
            constants,
            done.constants,
            s1.constants,
            0,
            done.constants.len() as int,
            0,
            s1.constants.len() as int,
            0,
            s1.constants.len() as int,
        );
        lemma_expression_agrees(e, st, code, constants, m, scopes, depth);
        lemma_value_statements(statements, from, last, scopes, depth);
        let first = value_of(e, scopes, depth);
        lemma_agree_at(code, done.current(), start, end, middle);
        if first is Ok {
            let value = first->Ok_0.0;
            let m1 = run(code, constants, m, middle as nat)->Ok_0;
            assert(m1.top(0) == value);
            lemma_agree_self(done.current(), middle + 1, end);
            lemma_agree_chain(
                code,
                done.current(),
                done.current(),
                start,
                end,
                middle + 1,
                end,
                middle + 1,
                end,
            );
            let next_last = handed_on(s, value);
            let next_scopes = scopes_after(s, scopes, value);
            if s is Let {
                let slot = st.definitions as u16;
                let m2 = after_set(m1, slot);
                lemma_mirrors_define(
                    st.symbols,
                    m.globals,
                    scopes,
                    st.definitions,
                    s->Let_1.kind->Ident_0,
                    value,
                );
                lemma_statements_agree(
                    statements,
                    from + 1,
                    next_last,
                    s2,
                    code,
                    constants,
                    m2,
                    next_scopes,
                    depth,
                );
                lemma_finishes_after_let(
                    code,
                    constants,
                    m,
                    middle as nat,
                    end as nat,
                    slot,
                    outcome(first),
                    outcome(value_of_all(statements, from + 1, next_last, next_scopes, depth)),
                );
            } else {
                let m2 = after_pop(m1);
                lemma_statements_agree(
                    statements,
                    from + 1,
                    next_last,
                    s2,
                    code,
                    constants,
                    m2,
                    next_scopes,
                    depth,
                );
                lemma_finishes_after_expression(
                    code,
                    constants,
                    m,
                    middle as nat,
                    end as nat,
                    outcome(first),
                    outcome(value_of_all(statements, from + 1, next_last, next_scopes, depth)),
                );
            }
        } else {
            lemma_run_stops(code, constants, m, middle as nat, end as nat);
        }
    }
}

/// The evaluator and the compiler agree on every supported program that
/// ends in an expression, such as `let a = 1; { let e = 42; e + 32 }; e * a`.
/// If evaluation gives a value, the machine runs the compiled instructions
/// to their end, and the value that it discarded last is that value. If
/// evaluation fails, the machine stops with the same issue.
pub proof fn theorem_compiled_program_agrees(program: Seq<StmtView>, depth: nat)
    requires
        supported_statements(program, 0, Set::empty()),
        program.len() > 0 ==> program.last() is Expression,
        has_room(
            initial(),
            constants_in_statements(program, 0),
            definitions_in_statements(program, 0),
        ),
        compile_statements(program, 0, initial()).current().len() <= usize::MAX,
    ensures
        match eval_node(NodeView::Program(program), 0, root_scopes(), depth) {
            Ok((value, _)) => {
                &&& run_program(
                    compile_statements(program, 0, initial()).current(),
                    compile_statements(program, 0, initial()).constants,
                ) is Ok
                &&& run_program(
                    compile_statements(program, 0, initial()).current(),
                    compile_statements(program, 0, initial()).constants,
                )->Ok_0.last_popped == value
            },
            Err(e) => run_program(
                compile_statements(program, 0, initial()).current(),
                compile_statements(program, 0, initial()).constants,
            ) == Err::<Machine, Seq<char>>(e.issue),
        },
{
    reveal(code_of_all);
    reveal(value_of_all);
    let compiled = compile_statements(program, 0, initial());
    assert(initial().symbols.dom() =~= Set::<Seq<char>>::empty());
    assert(initial().current().len() == 0);
    lemma_mirrors_nothing(start().globals, root_scopes());
    lemma_agree_self(compiled.current(), 0, compiled.current().len() as int);
    lemma_agree_self(compiled.constants, 0, compiled.constants.len() as int);
    lemma_statements_agree(
        program,
        0,
        ObjectView::Null,
        initial(),
        compiled.current(),
        compiled.constants,
        start(),
        root_scopes(),
        depth,
    );
    assert(eval_block(program, 0, root_scopes(), depth) == eval_statements(
        program,
        0,
        ObjectView::Null,
        0,
        root_scopes(),
        depth,
    ));
}

/// The evaluator and the compiler agree, down to the bytes: on every
/// supported program that ends in an expression, the machine that reads
/// the bytes which the compiler hands out discards last the value that
/// evaluation gives, or stops with the issue with which evaluation fails.
pub proof fn theorem_compiled_bytes_agree(program: Seq<StmtView>, depth: nat)
    requires
        supported_statements(program, 0, Set::empty()),
        program.len() > 0 ==> program.last() is Expression,
        has_room(
            initial(),
            constants_in_statements(program, 0),
            definitions_in_statements(program, 0),
        ),
        compile_statements(program, 0, initial()).current().len() <= usize::MAX,
        linearize(compile_statements(program, 0, initial()).current()).len() < capacity(
            JUMP_WIDTH as nat,
        ),
    ensures
        match eval_node(NodeView::Program(program), 0, root_scopes(), depth) {
            Ok((value, _)) => {
                &&& run_program_bytes(
                    linearize(compile_statements(program, 0, initial()).current()),
                    compile_statements(program, 0, initial()).constants,
                ) is Ok
                &&& run_program_bytes(
                    linearize(compile_statements(program, 0, initial()).current()),
                    compile_statements(program, 0, initial()).constants,
                )->Ok_0.last_popped == value
            },
            Err(e) => run_program_bytes(
                linearize(compile_statements(program, 0, initial()).current()),
                compile_statements(program, 0, initial()).constants,
            ) == Err::<Machine, Seq<char>>(e.issue),
        },
{
    let compiled = compile_statements(program, 0, initial());
    theorem_compiled_program_agrees(program, depth);
    theorem_bytes_mean_instructions(compiled.current(), compiled.constants);
}

} // verus!
