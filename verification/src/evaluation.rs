//! The evaluator: it walks the tree and computes what the semantics say.

use vstd::prelude::*;
use vstd::string::*;
use crate::ast::{
    clone_idents, view_expressions, view_idents, view_statements, Block, ExpressionNode, Ident,
    Node, Program, StatementNode,
};
use crate::env::{bind, extended, Env, ScopeView};
use crate::object::{view_objects, view_result, Object, ObjectView};
use crate::semantics;
use crate::semantics::{EvalErrorView, Evaluated, Frame, MAX_CALL_DEPTH};
use crate::text::{decimal_string, parse_integer_text, span_string};
use crate::token::{Token, TokenKind, TokenType};

verus! {

/// Why evaluation failed: the issue, and the token at which it arose.
#[derive(Debug, PartialEq, Eq)]
pub struct EvalError {
    pub issue: String,
    pub token: Token,
}

impl View for EvalError {
    type V = EvalErrorView;

    open spec fn view(&self) -> EvalErrorView {
        EvalErrorView { issue: self.issue@, token: self.token@ }
    }
}

/// The failure with the given issue at the given token.
pub fn eval_err(issue: String, token: Token) -> (r: EvalError)
    ensures
        r@ == semantics::failure(issue@, token@),
{
    EvalError { issue, token }
}

/// The error with the given issue at a copy of the token.
fn fail<T>(issue: &str, token: &Token) -> (r: Result<T, EvalError>)
    ensures
        r is Err,
        r->Err_0@ == semantics::failure(issue@, token@),
{
    Err(eval_err(String::from_str(issue), token.clone()))
}

/// The view of what evaluation without effect on the scopes returned.
pub open spec fn view_value(r: Result<Object, EvalError>) -> Result<ObjectView, EvalErrorView> {
    match r {
        Ok(o) => Ok(o@),
        Err(e) => Err(e@),
    }
}

/// Whether what an evaluation returned, with the scopes it left, is what
/// the semantics give.
pub open spec fn evaluated_as(
    r: Result<Object, EvalError>,
    after: Seq<ScopeView>,
    expected: Evaluated,
) -> bool {
    match r {
        Ok(o) => expected == Ok::<(ObjectView, Seq<ScopeView>), EvalErrorView>((o@, after)),
        Err(e) => expected == Err::<(ObjectView, Seq<ScopeView>), EvalErrorView>(e@),
    }
}

/// The result of an operation, with its error at a copy of the operator's
/// token.
fn locate(r: Result<Object, String>, token: &Token) -> (out: Result<Object, EvalError>)
    ensures
        view_value(out) == semantics::located(view_result(r), token@),
{
    match r {
        Ok(o) => Ok(o),
        Err(issue) => Err(eval_err(issue, token.clone())),
    }
}

/// The value of a name as seen from the scope `scope`.
pub fn eval_ident(token: &Token, scope: usize, env: &Env) -> (r: Result<Object, EvalError>)
    requires
        env.wf(),
        scope < env@.len(),
    ensures
        view_value(r) == semantics::eval_ident(token@, scope as nat, env@),
{
    match &token.kind {
        TokenType::Ident(name) => match env.get(scope, name) {
            Some(o) => Ok(o),
            None => fail("Failed to fetch the identifier", token),
        },
        _ => fail("Expected identifier", token),
    }
}

/// The value of an integer literal.
pub fn eval_int(token: &Token) -> (r: Result<Object, EvalError>)
    ensures
        view_value(r) == semantics::eval_int(token@),
{
    match &token.kind {
        TokenType::Int(digits) => match parse_integer_text(digits.as_str()) {
            Ok(i) => Ok(Object::Int(i)),
            Err(issue) => Err(eval_err(issue, token.clone())),
        },
        _ => fail("Expected Integer", token),
    }
}

/// The value of a boolean literal.
pub fn eval_bool(token: &Token) -> (r: Result<Object, EvalError>)
    ensures
        view_value(r) == semantics::eval_bool(token@),
{
    match token.kind {
        TokenType::True => Ok(Object::Bool(true)),
        TokenType::False => Ok(Object::Bool(false)),
        _ => fail("Expected boolean", token),
    }
}

/// Applies a prefix operator to a value.
pub fn eval_unary(operator: &Token, operand: Object) -> (r: Result<Object, EvalError>)
    ensures
        view_value(r) == semantics::eval_unary(operator@, operand@),
{
    match operator.kind {
        TokenType::Bang => Ok(Object::from_bool(!operand.into_bool())),
        TokenType::Plus => {
            if let Object::Int(value) = operand {
                Ok(Object::Int(value))
            } else {
                fail("Operand for the Unary Operator + should be an integer", operator)
            }
        },
        TokenType::Minus => {
            if let Object::Int(value) = operand {
                let zero: isize = 0;
                match zero.checked_sub(value) {
                    Some(negated) => Ok(Object::Int(negated)),
                    None => fail("Integer overflow", operator),
                }
            } else {
                fail("Operand for the Unary Operator - should be an integer", operator)
            }
        },
        _ => fail("Invalid unary operator", operator),
    }
}

/// Applies a binary operator to two values.
pub fn eval_binary(operator: &Token, lhs: Object, rhs: Object) -> (r: Result<Object, EvalError>)
    ensures
        view_value(r) == semantics::eval_binary(operator@, lhs@, rhs@),
{
    match operator.kind {
        TokenType::Plus => locate(lhs.add(rhs), operator),
        TokenType::Minus => locate(lhs.sub(rhs), operator),
        TokenType::Asterisk => locate(lhs.mul(rhs), operator),
        TokenType::Slash => locate(lhs.div(rhs), operator),
        TokenType::Eq => locate(lhs.eq(rhs), operator),
        TokenType::NotEq => locate(lhs.not_eq(rhs), operator),
        TokenType::GT => locate(lhs.gt(rhs), operator),
        TokenType::LT => locate(lhs.lt(rhs), operator),
        _ => fail("Invalid binary operator", operator),
    }
}

/// The message for a call with the wrong number of arguments.
fn arity_issue(got: usize, expected: usize) -> (r: String)
    ensures
        r@ == semantics::arity_issue(got as nat, expected as nat),
{
    let mut s = String::from_str("Incorrect number of arguments passed, Got: ");
    s.append(decimal_string(got).as_str());
    s.append(", Expected: ");
    s.append(decimal_string(expected).as_str());
    s
}

/// Binds the parameters to the arguments in the scope `scope`.
fn bind_params(params: &Vec<Ident>, args: Vec<Object>, scope: usize, env: &mut Env) -> (r: Result<
    (),
    EvalError,
>)
    requires
        old(env).wf(),
        scope < old(env)@.len(),
        params.len() == args.len(),
    ensures
        final(env).wf(),
        final(env)@.len() == old(env)@.len(),
        match r {
            Ok(_) => semantics::bind_params(
                view_idents(params@),
                view_objects(args@),
                0,
                scope as nat,
                old(env)@,
            ) == Ok::<Seq<ScopeView>, EvalErrorView>(final(env)@),
            Err(e) => semantics::bind_params(
                view_idents(params@),
                view_objects(args@),
                0,
                scope as nat,
                old(env)@,
            ) == Err::<Seq<ScopeView>, EvalErrorView>(e@),
        },
{
    let ghost values = view_objects(args@);
    let mut pending = args;
    let mut i: usize = 0;
    while i < params.len()
        invariant
            i <= params.len(),
            params.len() == pending.len(),
            values == view_objects(args@),
            values.len() == pending.len(),
            forall|j: int| i <= j < pending.len() ==> pending[j]@ == values[j],
            env.wf(),
            env@.len() == old(env)@.len(),
            scope < env@.len(),
            semantics::bind_params(view_idents(params@), values, i as nat, scope as nat, env@)
                == semantics::bind_params(view_idents(params@), values, 0, scope as nat, old(env)@),
        decreases params.len() - i,
    {
        match &params[i].0.kind {
            TokenType::Ident(name) => {
                let mut value = Object::Null;
                core::mem::swap(&mut value, &mut pending[i]);
                env.set(scope, name.clone(), value);
            },
            _ => {
                return fail("Expected identifier", &params[i].0);
            },
        }
        i += 1;
    }
    Ok(())
}

/// Prepares the call of `function` with `args`, and returns the body and
/// the number of the scope in which it is to run.
fn enter(site: &Token, function: Object, args: Vec<Object>, env: &mut Env, depth: usize) -> (r:
    Result<(Block, usize), EvalError>)
    requires
        old(env).wf(),
    ensures
        final(env).wf(),
        old(env)@.len() <= final(env)@.len(),
        match r {
            Ok((body, scope)) => {
                &&& semantics::enter(site@, function@, view_objects(args@), old(env)@, depth as nat)
                    == Ok::<Frame, EvalErrorView>(
                    Frame { body: body@, scope: scope as nat, scopes: final(env)@ },
                )
                &&& scope < final(env)@.len()
                &&& depth > 0
            },
            Err(e) => semantics::enter(
                site@,
                function@,
                view_objects(args@),
                old(env)@,
                depth as nat,
            ) == Err::<Frame, EvalErrorView>(e@),
        },
{
    if let Object::Function(token, params, body, captured) = function {
        if args.len() != params.len() {
            return Err(eval_err(arity_issue(args.len(), params.len()), token));
        }
        if depth == 0 {
            return fail("Maximum call depth exceeded", site);
        }
        if captured >= env.len() {
            return Err(eval_err(String::from_str("Function belongs to no scope"), token));
        }
        let scope = env.extend(captured);
        match bind_params(&params, args, scope, env) {
            Ok(_) => Ok((body, scope)),
            Err(e) => Err(e),
        }
    } else {
        fail("Can't call a non function", site)
    }
}

/// Evaluates an expression in the scope `scope`.
pub fn eval_expression(e: &ExpressionNode, scope: usize, env: &mut Env, depth: usize) -> (r:
    Result<Object, EvalError>)
    requires
        old(env).wf(),
        scope < old(env)@.len(),
    ensures
        final(env).wf(),
        old(env)@.len() <= final(env)@.len(),
        evaluated_as(
            r,
            final(env)@,
            semantics::eval_expression(e@, scope as nat, old(env)@, depth as nat),
        ),
    decreases depth, e,
{
    match e {
        ExpressionNode::Ident(token) => eval_ident(token, scope, env),
        ExpressionNode::Int(token) => eval_int(token),
        ExpressionNode::Bool(token) => eval_bool(token),
        ExpressionNode::UnaryOperator(operator, operand) => {
            let operand = match eval_expression(operand, scope, env, depth) {
                Ok(o) => o,
                Err(e) => {
                    return Err(e);
                },
            };
            eval_unary(operator, operand)
        },
        ExpressionNode::BinaryOperator(operator, lhs, rhs) => {
            let lhs = match eval_expression(lhs, scope, env, depth) {
                Ok(o) => o,
                Err(e) => {
                    return Err(e);
                },
            };
            let rhs = match eval_expression(rhs, scope, env, depth) {
                Ok(o) => o,
                Err(e) => {
                    return Err(e);
                },
            };
            eval_binary(operator, lhs, rhs)
        },
        ExpressionNode::Block(block) => {
            assert(decreases_to!(*e => e->Block_0));
            eval_block(block, scope, env, depth)
        },
        ExpressionNode::If(_, condition, action, alternate) => {
            let condition = match eval_expression(condition, scope, env, depth) {
                Ok(o) => o,
                Err(e) => {
                    return Err(e);
                },
            };
            if condition.into_bool() {
                assert(decreases_to!(*e => e->If_2));
                assert(decreases_to!(e->If_2 => e->If_2.statements));
                eval_block(&action.statements, scope, env, depth)
            } else {
                match alternate {
                    Some(alternate) => {
                        assert(decreases_to!(*e => e->If_3));
                        assert(decreases_to!(e->If_3 => e->If_3->Some_0));
                        assert(decreases_to!(e->If_3->Some_0 => e->If_3->Some_0.statements));
                        eval_block(&alternate.statements, scope, env, depth)
                    },
                    None => Ok(Object::Null),
                }
            }
        },
        ExpressionNode::Function(token, params, body) => Ok(
            Object::Function(token.clone(), clone_idents(params), body.clone(), scope),
        ),
        ExpressionNode::FunctionCall(site, function, args) => {
            let function = match eval_expression(function, scope, env, depth) {
                Ok(o) => o,
                Err(e) => {
                    return Err(e);
                },
            };
            assert(decreases_to!(*e => e->FunctionCall_2));
            let args = match eval_arguments(args, scope, env, depth) {
                Ok(values) => values,
                Err(e) => {
                    return Err(e);
                },
            };
            let (body, inner) = match enter(site, function, args, env, depth) {
                Ok(frame) => frame,
                Err(e) => {
                    return Err(e);
                },
            };
            match eval_block(&body.statements, inner, env, depth - 1) {
                Ok(value) => Ok(value.unwrapped()),
                Err(e) => Err(e),
            }
        },
    }
}

/// Evaluates the arguments of a call from left to right.
pub fn eval_arguments(args: &Vec<ExpressionNode>, scope: usize, env: &mut Env, depth: usize) -> (r:
    Result<Vec<Object>, EvalError>)
    requires
        old(env).wf(),
        scope < old(env)@.len(),
    ensures
        final(env).wf(),
        old(env)@.len() <= final(env)@.len(),
        match r {
            Ok(values) => semantics::eval_arguments(
                view_expressions(args@),
                0,
                Seq::empty(),
                scope as nat,
                old(env)@,
                depth as nat,
            ) == Ok::<(Seq<ObjectView>, Seq<ScopeView>), EvalErrorView>(
                (view_objects(values@), final(env)@),
            ),
            Err(e) => semantics::eval_arguments(
                view_expressions(args@),
                0,
                Seq::empty(),
                scope as nat,
                old(env)@,
                depth as nat,
            ) == Err::<(Seq<ObjectView>, Seq<ScopeView>), EvalErrorView>(e@),
        },
    decreases depth, args,
{
    let mut values: Vec<Object> = Vec::new();
    let mut i: usize = 0;
    assert(view_objects(values@) =~= Seq::<ObjectView>::empty());
    while i < args.len()
        invariant
            i <= args.len(),
            env.wf(),
            old(env)@.len() <= env@.len(),
            scope < env@.len(),
            semantics::eval_arguments(
                view_expressions(args@),
                i as nat,
                view_objects(values@),
                scope as nat,
                env@,
                depth as nat,
            ) == semantics::eval_arguments(
                view_expressions(args@),
                0,
                Seq::empty(),
                scope as nat,
                old(env)@,
                depth as nat,
            ),
        decreases args.len() - i,
    {
        assert(decreases_to!(args => args[i as int]));
        let ghost before = view_objects(values@);
        let value = match eval_expression(&args[i], scope, env, depth) {
            Ok(o) => o,
            Err(e) => {
                return Err(e);
            },
        };
        values.push(value);
        assert(view_objects(values@) =~= before.push(value@));
        i += 1;
    }
    Ok(values)
}

/// Evaluates a statement in the scope `scope`.
pub fn eval_statement(s: &StatementNode, scope: usize, env: &mut Env, depth: usize) -> (r: Result<
    Object,
    EvalError,
>)
    requires
        old(env).wf(),
        scope < old(env)@.len(),
    ensures
        final(env).wf(),
        old(env)@.len() <= final(env)@.len(),
        evaluated_as(
            r,
            final(env)@,
            semantics::eval_statement(s@, scope as nat, old(env)@, depth as nat),
        ),
    decreases depth, s,
{
    match s {
        StatementNode::Expression(expr) => eval_expression(expr, scope, env, depth),
        StatementNode::Return(_, expr) => {
            match eval_expression(expr, scope, env, depth) {
                Ok(value) => Ok(Object::Return(Box::new(value))),
                Err(e) => Err(e),
            }
        },
        StatementNode::Let(_, ident, expr) => {
            let value = match eval_expression(expr, scope, env, depth) {
                Ok(o) => o,
                Err(e) => {
                    return Err(e);
                },
            };
            match &ident.0.kind {
                TokenType::Ident(name) => {
                    env.set(scope, name.clone(), value);
                    Ok(Object::Null)
                },
                _ => fail("Expected identifier", &ident.0),
            }
        },
    }
}

/// Evaluates the statements of a block in the scope `scope`, up to the
/// first that returns.
pub fn eval_block(block: &Vec<StatementNode>, scope: usize, env: &mut Env, depth: usize) -> (r:
    Result<Object, EvalError>)
    requires
        old(env).wf(),
        scope < old(env)@.len(),
    ensures
        final(env).wf(),
        old(env)@.len() <= final(env)@.len(),
        evaluated_as(
            r,
            final(env)@,
            semantics::eval_block(view_statements(block@), scope as nat, old(env)@, depth as nat),
        ),
    decreases depth, block,
{
    let mut result = Object::Null;
    let mut i: usize = 0;
    while i < block.len()
        invariant
            i <= block.len(),
            env.wf(),
            old(env)@.len() <= env@.len(),
            scope < env@.len(),
            semantics::eval_statements(
                view_statements(block@),
                i as nat,
                result@,
                scope as nat,
                env@,
                depth as nat,
            ) == semantics::eval_block(
                view_statements(block@),
                scope as nat,
                old(env)@,
                depth as nat,
            ),
        decreases block.len() - i,
    {
        assert(decreases_to!(block => block[i as int]));
        let r = match eval_statement(&block[i], scope, env, depth) {
            Ok(o) => o,
            Err(e) => {
                return Err(e);
            },
        };
        if let Object::Return(_) = r {
            return Ok(r);
        }
        result = r;
        i += 1;
    }
    Ok(result)
}

/// Evaluates a node in the scope `scope`, with at most `depth` nested
/// calls.
pub fn eval(node: &Node, scope: usize, env: &mut Env, depth: usize) -> (r: Result<
    Object,
    EvalError,
>)
    requires
        old(env).wf(),
        scope < old(env)@.len(),
    ensures
        final(env).wf(),
        old(env)@.len() <= final(env)@.len(),
        evaluated_as(
            r,
            final(env)@,
            semantics::eval_node(node@, scope as nat, old(env)@, depth as nat),
        ),
{
    match node {
        Node::Program(program) => {
            match eval_block(&program.statements, scope, env, depth) {
                Ok(o) => Ok(o.unwrapped()),
                Err(e) => Err(e),
            }
        },
        Node::Statement(stmt) => eval_statement(stmt, scope, env, depth),
        Node::Expression(expr) => eval_expression(expr, scope, env, depth),
    }
}

/// The error object of a failed evaluation.
fn error_object(err: EvalError) -> (r: Object)
    ensures
        r@ == semantics::error_object(err@),
{
    let mut message = err.issue;
    message.append(" @ ");
    message.append(span_string(err.token.span).as_str());
    Object::Error(message)
}

/// Evaluates a program with at most `depth` nested calls. A call beyond
/// that fails with the issue `Maximum call depth exceeded`.
pub fn eval_program_within(program: Program, depth: usize) -> (r: Object)
    ensures
        r@ == semantics::eval_program_within(program@, depth as nat),
        !(r@ is Return),
{
    proof {
        semantics::lemma_return_stays_inside(program@, depth as nat);
    }
    let mut env = Env::new();
    let node = Node::Program(program);
    match eval(&node, 0, &mut env, depth) {
        Ok(o) => o,
        Err(err) => error_object(err),
    }
}

/// Evaluates a program. A failure of evaluation comes back as an error
/// object.
///
/// Calls may be nested `MAX_CALL_DEPTH` deep, which is 200. A call beyond
/// that fails with the issue `Maximum call depth exceeded` at the token of
/// the call, so that a function that calls itself without end gives an
/// error object like any other failure. `eval_program_within` takes the
/// limit as an argument.
pub fn eval_program(program: Program) -> (r: Object)
    ensures
        r@ == semantics::eval_program(program@),
        !(r@ is Return),
{
    eval_program_within(program, MAX_CALL_DEPTH)
}

} // verus!