//! Closures outlive nothing that they need: every function value names a
//! scope that exists, at every point of every evaluation.

use vstd::prelude::*;
use crate::ast::{ExprView, StmtView};
use crate::env::{bind, extended, lookup, scopes_nest, ScopeView};
use crate::object::ObjectView;
use crate::semantics::{
    bind_params, enter, eval_arguments, eval_binary, eval_block, eval_bool, eval_expression,
    eval_ident, eval_int, eval_statement, eval_statements, eval_unary, root_scopes,
    EvalErrorView, Evaluated,
};
use crate::token::{TokenKind, TokenView};

verus! {

/// Whether a value, if it is a function or the returned value of one,
/// names one of the first `count` scopes.
pub open spec fn valid_object(o: ObjectView, count: nat) -> bool
    decreases o,
{
    match o {
        ObjectView::Function(_, _, _, captured) => captured < count,
        ObjectView::Return(inner) => valid_object(*inner, count),
        _ => true,
    }
}

/// Whether every value of a list is valid among `count` scopes.
pub open spec fn valid_objects(values: Seq<ObjectView>, count: nat) -> bool {
    forall|i: int| 0 <= i < values.len() ==> valid_object(#[trigger] values[i], count)
}

/// Whether the scopes are closed: each lies inside an older one, and every
/// value that one of them binds is valid among them.
pub open spec fn closed(scopes: Seq<ScopeView>) -> bool {
    &&& scopes_nest(scopes)
    &&& forall|i: int, name: Seq<char>|
        0 <= i < scopes.len() && #[trigger] scopes[i].store.contains_key(name) ==> valid_object(
            scopes[i].store[name],
            scopes.len(),
        )
}

/// Whether an evaluation, if it gave a value, left closed scopes, no fewer
/// than `before`, among which the value is valid.
pub open spec fn sound(evaluated: Evaluated, before: nat) -> bool {
    match evaluated {
        Ok((value, after)) => closed(after) && before <= after.len() && valid_object(
            value,
            after.len(),
        ),
        Err(_) => true,
    }
}

/// A value that is valid among some scopes is valid among more.
pub proof fn lemma_valid_among_more(o: ObjectView, count: nat, more: nat)
    requires
        valid_object(o, count),
        count <= more,
    ensures
        valid_object(o, more),
    decreases o,
{
    match o {
        ObjectView::Return(inner) => {
            lemma_valid_among_more(*inner, count, more);
        },
        _ => {},
    }
}

/// Values that are valid among some scopes are valid among more.
pub proof fn lemma_all_valid_among_more(values: Seq<ObjectView>, count: nat, more: nat)
    requires
        valid_objects(values, count),
        count <= more,
    ensures
        valid_objects(values, more),
{
    assert forall|i: int| 0 <= i < values.len() implies valid_object(
        #[trigger] values[i],
        more,
    ) by {
        lemma_valid_among_more(values[i], count, more);
    }
}

/// A valid value stays valid without the marks of `return`.
pub proof fn lemma_valid_unwrapped(o: ObjectView, count: nat)
    requires
        valid_object(o, count),
    ensures
        valid_object(o.unwrapped(), count),
    decreases o,
{
    match o {
        ObjectView::Return(inner) => {
            lemma_valid_unwrapped(*inner, count);
        },
        _ => {},
    }
}

/// What is looked up in closed scopes is valid among them.
pub proof fn lemma_lookup_valid(scopes: Seq<ScopeView>, scope: nat, key: Seq<char>)
    requires
        closed(scopes),
    ensures
        lookup(scopes, scope, key) is Some ==> valid_object(
            lookup(scopes, scope, key)->Some_0,
            scopes.len(),
        ),
    decreases scope,
{
    if scope < scopes.len() && !scopes[scope as int].store.contains_key(key) {
        match scopes[scope as int].outer {
            Some(outer) => {
                if outer < scope {
                    lemma_lookup_valid(scopes, outer, key);
                }
            },
            None => {},
        }
    }
}

/// Binding a valid value keeps the scopes closed.
pub proof fn lemma_bind_closed(
    scopes: Seq<ScopeView>,
    scope: nat,
    key: Seq<char>,
    value: ObjectView,
)
    requires
        closed(scopes),
        valid_object(value, scopes.len()),
    ensures
        closed(bind(scopes, scope, key, value)),
        bind(scopes, scope, key, value).len() == scopes.len(),
{
    let bound = bind(scopes, scope, key, value);
    if scope < scopes.len() {
        assert forall|i: int, name: Seq<char>|
            0 <= i < bound.len() && #[trigger] bound[i].store.contains_key(
                name,
            ) implies valid_object(bound[i].store[name], bound.len()) by {
            if i == scope && name == key {
            } else {
                assert(scopes[i].store.contains_key(name));
            }
        }
        assert forall|i: int| 0 <= i < bound.len() implies match (#[trigger] bound[i]).outer {
            Some(outer) => outer < i,
            None => true,
        } by {
            assert(bound[i].outer == scopes[i].outer);
        }
    }
}

/// A new scope inside one that exists keeps the scopes closed.
pub proof fn lemma_extended_closed(scopes: Seq<ScopeView>, older: nat)
    requires
        closed(scopes),
        older < scopes.len(),
    ensures
        closed(extended(scopes, older)),
        extended(scopes, older).len() == scopes.len() + 1,
{
    let more = extended(scopes, older);
    assert forall|i: int, name: Seq<char>|
        0 <= i < more.len() && #[trigger] more[i].store.contains_key(name) implies valid_object(
        more[i].store[name],
        more.len(),
    ) by {
        if i < scopes.len() {
            assert(scopes[i].store.contains_key(name));
            lemma_valid_among_more(scopes[i].store[name], scopes.len(), more.len());
        }
    }
    assert forall|i: int| 0 <= i < more.len() implies match (#[trigger] more[i]).outer {
        Some(outer) => outer < i,
        None => true,
    } by {
        if i < scopes.len() {
            assert(more[i] == scopes[i]);
        }
    }
}

/// Binding valid arguments to the parameters keeps the scopes closed.
pub proof fn lemma_bind_params_closed(
    params: Seq<TokenView>,
    args: Seq<ObjectView>,
    from: nat,
    scope: nat,
    scopes: Seq<ScopeView>,
)
    requires
        closed(scopes),
        valid_objects(args, scopes.len()),
    ensures
        bind_params(params, args, from, scope, scopes) is Ok ==> {
            let bound = bind_params(params, args, from, scope, scopes)->Ok_0;
            &&& closed(bound)
            &&& bound.len() == scopes.len()
            &&& forall|i: int|
                0 <= i < scopes.len() ==> (#[trigger] bound[i]).outer == scopes[i].outer
        },
    decreases params.len() - from,
{
    if from < params.len() && from < args.len() {
        match params[from as int].kind {
            TokenKind::Ident(name) => {
                let next = bind(scopes, scope, name, args[from as int]);
                lemma_bind_closed(scopes, scope, name, args[from as int]);
                lemma_bind_params_closed(params, args, from + 1, scope, next);
                if bind_params(params, args, from, scope, scopes) is Ok {
                    let bound = bind_params(params, args, from, scope, scopes)->Ok_0;
                    assert forall|i: int| 0 <= i < scopes.len() implies (#[trigger] bound[i]).outer
                        == scopes[i].outer by {
                        assert(next[i].outer == scopes[i].outer);
                    }
                }
            },
            _ => {},
        }
    }
}

/// A call that is entered runs in a scope of its own, which is new and
/// lies inside the scope that the function was made in, among closed
/// scopes.
pub proof fn lemma_enter_closed(
    site: TokenView,
    function: ObjectView,
    args: Seq<ObjectView>,
    scopes: Seq<ScopeView>,
    depth: nat,
)
    requires
        closed(scopes),
        valid_objects(args, scopes.len()),
    ensures
        enter(site, function, args, scopes, depth) is Ok ==> {
            let frame = enter(site, function, args, scopes, depth)->Ok_0;
            &&& closed(frame.scopes)
            &&& frame.scope == scopes.len()
            &&& frame.scopes.len() == scopes.len() + 1
            &&& function is Function
            &&& frame.scopes[frame.scope as int].outer == Some(function->Function_3)
            &&& depth > 0
        },
{
    match function {
        ObjectView::Function(token, params, body, captured) => {
            if args.len() == params.len() && depth > 0 && captured < scopes.len() {
                lemma_extended_closed(scopes, captured);
                lemma_all_valid_among_more(args, scopes.len(), scopes.len() + 1);
                lemma_bind_params_closed(
                    params,
                    args,
                    0,
                    scopes.len(),
                    extended(scopes, captured),
                );
            }
        },
        _ => {},
    }
}

/// What a prefix operator gives is valid among any scopes.
pub proof fn lemma_unary_valid(operator: TokenView, operand: ObjectView, count: nat)
    ensures
        eval_unary(operator, operand) is Ok ==> valid_object(
            eval_unary(operator, operand)->Ok_0,
            count,
        ),
{
}

/// What a binary operator gives is valid among any scopes.
pub proof fn lemma_binary_valid(operator: TokenView, lhs: ObjectView, rhs: ObjectView, count: nat)
    ensures
        eval_binary(operator, lhs, rhs) is Ok ==> valid_object(
            eval_binary(operator, lhs, rhs)->Ok_0,
            count,
        ),
{
}

/// A literal is valid among any scopes.
pub proof fn lemma_literal_valid(token: TokenView, count: nat)
    ensures
        eval_int(token) is Ok ==> valid_object(eval_int(token)->Ok_0, count),
        eval_bool(token) is Ok ==> valid_object(eval_bool(token)->Ok_0, count),
{
}

/// The value of a name in closed scopes is valid among them.
pub proof fn lemma_ident_valid(token: TokenView, scope: nat, scopes: Seq<ScopeView>)
    requires
        closed(scopes),
    ensures
        eval_ident(token, scope, scopes) is Ok ==> valid_object(
            eval_ident(token, scope, scopes)->Ok_0,
            scopes.len(),
        ),
{
    match token.kind {
        TokenKind::Ident(name) => {
            lemma_lookup_valid(scopes, scope, name);
        },
        _ => {},
    }
}

/// Evaluating an expression in closed scopes leaves closed scopes, and its
/// value is valid among them.
pub proof fn lemma_expression_closed(e: ExprView, scope: nat, scopes: Seq<ScopeView>, depth: nat)
    requires
        closed(scopes),
        scope < scopes.len(),
    ensures
        sound(eval_expression(e, scope, scopes, depth), scopes.len()),
    decreases depth, e, 0nat,
{
    match e {
        ExprView::Ident(token) => {
            lemma_ident_valid(token, scope, scopes);
        },
        ExprView::Int(token) => {
            lemma_literal_valid(token, scopes.len());
        },
        ExprView::Bool(token) => {
            lemma_literal_valid(token, scopes.len());
        },
        ExprView::Unary(operator, operand) => {
            lemma_expression_closed(*operand, scope, scopes, depth);
            match eval_expression(*operand, scope, scopes, depth) {
                Ok((value, after)) => {
                    lemma_unary_valid(operator, value, after.len());
                },
                Err(_) => {},
            }
        },
        ExprView::Binary(operator, lhs, rhs) => {
            lemma_expression_closed(*lhs, scope, scopes, depth);
            match eval_expression(*lhs, scope, scopes, depth) {
                Ok((left, after_left)) => {
                    lemma_expression_closed(*rhs, scope, after_left, depth);
                    match eval_expression(*rhs, scope, after_left, depth) {
                        Ok((right, after)) => {
                            lemma_binary_valid(operator, left, right, after.len());
                        },
                        Err(_) => {},
                    }
                },
                Err(_) => {},
            }
        },
        ExprView::Block(statements) => {
            lemma_block_closed(statements, scope, scopes, depth);
        },
        ExprView::If(_, condition, action, alternate) => {
            lemma_expression_closed(*condition, scope, scopes, depth);
            match eval_expression(*condition, scope, scopes, depth) {
                Ok((value, after)) => {
                    if value.truthy() {
                        lemma_block_closed(action, scope, after, depth);
                    } else {
                        match alternate {
                            Some(statements) => {
                                lemma_block_closed(statements, scope, after, depth);
                            },
                            None => {},
                        }
                    }
                },
                Err(_) => {},
            }
        },
        ExprView::Function(_, _, _) => {},
        ExprView::Call(site, function, args) => {
            lemma_expression_closed(*function, scope, scopes, depth);
            match eval_expression(*function, scope, scopes, depth) {
                Ok((callee, after_callee)) => {
                    lemma_arguments_closed(args, 0, Seq::empty(), scope, after_callee, depth);
                    match eval_arguments(args, 0, Seq::empty(), scope, after_callee, depth) {
                        Ok((values, after_args)) => {
                            lemma_enter_closed(site, callee, values, after_args, depth);
                            match enter(site, callee, values, after_args, depth) {
                                Ok(frame) => {
                                    lemma_block_closed(
                                        frame.body,
                                        frame.scope,
                                        frame.scopes,
                                        (depth - 1) as nat,
                                    );
                                    match eval_block(
                                        frame.body,
                                        frame.scope,
                                        frame.scopes,
                                        (depth - 1) as nat,
                                    ) {
                                        Ok((value, after)) => {
                                            lemma_valid_unwrapped(value, after.len());
                                        },
                                        Err(_) => {},
                                    }
                                },
                                Err(_) => {},
                            }
                        },
                        Err(_) => {},
                    }
                },
                Err(_) => {},
            }
        },
    }
}

/// Evaluating the arguments of a call in closed scopes leaves closed
/// scopes, and their values are valid among them.
pub proof fn lemma_arguments_closed(
    args: Seq<ExprView>,
    from: nat,
    acc: Seq<ObjectView>,
    scope: nat,
    scopes: Seq<ScopeView>,
    depth: nat,
)
    requires
        closed(scopes),
        scope < scopes.len(),
        valid_objects(acc, scopes.len()),
    ensures
        match eval_arguments(args, from, acc, scope, scopes, depth) {
            Ok((values, after)) => closed(after) && scopes.len() <= after.len() && valid_objects(
                values,
                after.len(),
            ),
            Err(_) => true,
        },
    decreases depth, args, args.len() - from,
{
    if from < args.len() {
        lemma_expression_closed(args[from as int], scope, scopes, depth);
        match eval_expression(args[from as int], scope, scopes, depth) {
            Ok((value, after)) => {
                lemma_all_valid_among_more(acc, scopes.len(), after.len());
                assert(valid_objects(acc.push(value), after.len()));
                lemma_arguments_closed(args, from + 1, acc.push(value), scope, after, depth);
            },
            Err(_) => {},
        }
    }
}

/// Evaluating a statement in closed scopes leaves closed scopes, and its
/// value is valid among them.
pub proof fn lemma_statement_closed(s: StmtView, scope: nat, scopes: Seq<ScopeView>, depth: nat)
    requires
        closed(scopes),
        scope < scopes.len(),
    ensures
        sound(eval_statement(s, scope, scopes, depth), scopes.len()),
    decreases depth, s, 0nat,
{
    match s {
        StmtView::Expression(e) => {
            lemma_expression_closed(e, scope, scopes, depth);
        },
        StmtView::Return(_, e) => {
            lemma_expression_closed(e, scope, scopes, depth);
        },
        StmtView::Let(_, ident, e) => {
            lemma_expression_closed(e, scope, scopes, depth);
            match eval_expression(e, scope, scopes, depth) {
                Ok((value, after)) => {
                    match ident.kind {
                        TokenKind::Ident(name) => {
                            lemma_bind_closed(after, scope, name, value);
                        },
                        _ => {},
                    }
                },
                Err(_) => {},
            }
        },
    }
}

/// Evaluating statements in closed scopes leaves closed scopes, and their
/// value is valid among them.
pub proof fn lemma_statements_closed(
    statements: Seq<StmtView>,
    from: nat,
    last: ObjectView,
    scope: nat,
    scopes: Seq<ScopeView>,
    depth: nat,
)
    requires
        closed(scopes),
        scope < scopes.len(),
        valid_object(last, scopes.len()),
    ensures
        sound(eval_statements(statements, from, last, scope, scopes, depth), scopes.len()),
    decreases depth, statements, statements.len() - from,
{
    if from < statements.len() {
        lemma_statement_closed(statements[from as int], scope, scopes, depth);
        match eval_statement(statements[from as int], scope, scopes, depth) {
            Ok((value, after)) => {
                if !(value is Return) {
                    lemma_statements_closed(statements, from + 1, value, scope, after, depth);
                }
            },
            Err(_) => {},
        }
    }
}

/// Evaluating a block in closed scopes leaves closed scopes, and its value
/// is valid among them.
pub proof fn lemma_block_closed(
    statements: Seq<StmtView>,
    scope: nat,
    scopes: Seq<ScopeView>,
    depth: nat,
)
    requires
        closed(scopes),
        scope < scopes.len(),
    ensures
        sound(eval_block(statements, scope, scopes, depth), scopes.len()),
    decreases depth, statements, statements.len() + 1,
{
    lemma_statements_closed(statements, 0, ObjectView::Null, scope, scopes, depth);
}

/// Closures outlive nothing that they need: a program starts in closed
/// scopes, so that at every call the function names a scope that exists.
pub proof fn theorem_closures_stay_valid(program: Seq<StmtView>, depth: nat)
    ensures
        closed(root_scopes()),
        sound(eval_block(program, 0, root_scopes(), depth), 1),
{
    assert(closed(root_scopes())) by {
        assert(root_scopes()[0].store =~= Map::<Seq<char>, ObjectView>::empty());
    }
    lemma_block_closed(program, 0, root_scopes(), depth);
}

} // verus!
