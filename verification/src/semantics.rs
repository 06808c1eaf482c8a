//! What a program means: the value of every expression and statement, given
//! the scopes, as functions of the tree.
//!
//! Evaluation goes from left to right and passes the scopes along. A call
//! evaluates the body in a new scope inside the one that the function was
//! made in. `depth` is the number of calls that may still be nested; a call
//! beyond it is an error, so that every evaluation ends.

use vstd::prelude::*;
use crate::ast::{ExprView, NodeView, StmtView};
use crate::env::{bind, extended, lookup, ScopeView};
use crate::object::ObjectView;
use crate::text::{decimal, parse_integer, span_text};
use crate::token::{TokenKind, TokenView};

verus! {

/// Why evaluation failed: the issue, and the token at which it arose.
pub ghost struct EvalErrorView {
    pub issue: Seq<char>,
    pub token: TokenView,
}

/// What evaluation yields: a value and the scopes after it, or an error.
pub type Evaluated = Result<(ObjectView, Seq<ScopeView>), EvalErrorView>;

/// The number of nested calls that `eval_program` allows. The language
/// sets no limit of its own; this one keeps every evaluation finite and
/// well within the stack of a thread.
pub const MAX_CALL_DEPTH: usize = 200;

/// The failure with the given issue at the given token.
pub open spec fn failure(issue: Seq<char>, token: TokenView) -> EvalErrorView {
    EvalErrorView { issue, token }
}

/// The operation's result, or its error at the operator's token.
pub open spec fn located(r: Result<ObjectView, Seq<char>>, token: TokenView) -> Result<
    ObjectView,
    EvalErrorView,
> {
    match r {
        Ok(o) => Ok(o),
        Err(issue) => Err(failure(issue, token)),
    }
}

/// The value of a name: what the nearest scope that binds it holds.
pub open spec fn eval_ident(token: TokenView, scope: nat, scopes: Seq<ScopeView>) -> Result<
    ObjectView,
    EvalErrorView,
> {
    match token.kind {
        TokenKind::Ident(name) => match lookup(scopes, scope, name) {
            Some(o) => Ok(o),
            None => Err(failure("Failed to fetch the identifier"@, token)),
        },
        _ => Err(failure("Expected identifier"@, token)),
    }
}

/// The value of an integer literal.
pub open spec fn eval_int(token: TokenView) -> Result<ObjectView, EvalErrorView> {
    match token.kind {
        TokenKind::Int(digits) => match parse_integer(digits) {
            Ok(i) => Ok(ObjectView::Int(i)),
            Err(issue) => Err(failure(issue, token)),
        },
        _ => Err(failure("Expected Integer"@, token)),
    }
}

/// The value of a boolean literal.
pub open spec fn eval_bool(token: TokenView) -> Result<ObjectView, EvalErrorView> {
    match token.kind {
        TokenKind::True => Ok(ObjectView::Bool(true)),
        TokenKind::False => Ok(ObjectView::Bool(false)),
        _ => Err(failure("Expected boolean"@, token)),
    }
}

/// A prefix operator applied to a value: `!` negates its truth, `+` and `-`
/// want an integer.
pub open spec fn eval_unary(operator: TokenView, operand: ObjectView) -> Result<
    ObjectView,
    EvalErrorView,
> {
    match operator.kind {
        TokenKind::Bang => Ok(ObjectView::Bool(!operand.truthy())),
        TokenKind::Plus => match operand {
            ObjectView::Int(i) => Ok(ObjectView::Int(i)),
            _ => Err(
                failure("Operand for the Unary Operator + should be an integer"@, operator),
            ),
        },
        TokenKind::Minus => match operand {
            ObjectView::Int(i) => located(crate::object::fitting(-i), operator),
            _ => Err(
                failure("Operand for the Unary Operator - should be an integer"@, operator),
            ),
        },
        _ => Err(failure("Invalid unary operator"@, operator)),
    }
}

/// A binary operator applied to two values.
pub open spec fn eval_binary(operator: TokenView, lhs: ObjectView, rhs: ObjectView) -> Result<
    ObjectView,
    EvalErrorView,
> {
    match operator.kind {
        TokenKind::Plus => located(lhs.add(rhs), operator),
        TokenKind::Minus => located(lhs.sub(rhs), operator),
        TokenKind::Asterisk => located(lhs.mul(rhs), operator),
        TokenKind::Slash => located(lhs.div(rhs), operator),
        TokenKind::Eq => located(lhs.eq(rhs), operator),
        TokenKind::NotEq => located(lhs.not_eq(rhs), operator),
        TokenKind::GT => located(lhs.gt(rhs), operator),
        TokenKind::LT => located(lhs.lt(rhs), operator),
        _ => Err(failure("Invalid binary operator"@, operator)),
    }
}

/// The message for a call with the wrong number of arguments.
pub open spec fn arity_issue(got: nat, expected: nat) -> Seq<char> {
    "Incorrect number of arguments passed, Got: "@ + decimal(got) + ", Expected: "@ + decimal(
        expected,
    )
}

/// The scopes after the parameters from offset `from` on are bound to their
/// arguments in the scope `scope`, one after the other.
pub open spec fn bind_params(
    params: Seq<TokenView>,
    args: Seq<ObjectView>,
    from: nat,
    scope: nat,
    scopes: Seq<ScopeView>,
) -> Result<Seq<ScopeView>, EvalErrorView>
    decreases params.len() - from,
{
    if from >= params.len() || from >= args.len() {
        Ok(scopes)
    } else {
        match params[from as int].kind {
            TokenKind::Ident(name) => bind_params(
                params,
                args,
                from + 1,
                scope,
                bind(scopes, scope, name, args[from as int]),
            ),
            _ => Err(failure("Expected identifier"@, params[from as int])),
        }
    }
}

/// What a call needs before its body runs.
pub ghost struct Frame {
    pub body: Seq<StmtView>,
    pub scope: nat,
    pub scopes: Seq<ScopeView>,
}

/// Prepares the call of `function` with `args`: it must be a function of as
/// many parameters, made in a scope that exists, and a call must still be
/// allowed. The body then runs in a new scope inside the function's own,
/// with the parameters bound.
pub open spec fn enter(
    site: TokenView,
    function: ObjectView,
    args: Seq<ObjectView>,
    scopes: Seq<ScopeView>,
    depth: nat,
) -> Result<Frame, EvalErrorView> {
    match function {
        ObjectView::Function(token, params, body, captured) => {
            if args.len() != params.len() {
                Err(failure(arity_issue(args.len(), params.len()), token))
            } else if depth == 0 {
                Err(failure("Maximum call depth exceeded"@, site))
            } else if captured >= scopes.len() {
                Err(failure("Function belongs to no scope"@, token))
            } else {
                let scope = scopes.len();
                match bind_params(params, args, 0, scope, extended(scopes, captured)) {
                    Ok(bound) => Ok(Frame { body, scope, scopes: bound }),
                    Err(e) => Err(e),
                }
            }
        },
        _ => Err(failure("Can't call a non function"@, site)),
    }
}

/// The value of an expression in the scope `scope`.
pub open spec fn eval_expression(e: ExprView, scope: nat, scopes: Seq<ScopeView>, depth: nat)
    -> Evaluated
    decreases depth, e, 0nat,
{
    match e {
        ExprView::Ident(token) => match eval_ident(token, scope, scopes) {
            Ok(o) => Ok((o, scopes)),
            Err(e) => Err(e),
        },
        ExprView::Int(token) => match eval_int(token) {
            Ok(o) => Ok((o, scopes)),
            Err(e) => Err(e),
        },
        ExprView::Bool(token) => match eval_bool(token) {
            Ok(o) => Ok((o, scopes)),
            Err(e) => Err(e),
        },
        ExprView::Unary(operator, operand) => match eval_expression(
            *operand,
            scope,
            scopes,
            depth,
        ) {
            Err(e) => Err(e),
            Ok((value, after)) => match eval_unary(operator, value) {
                Ok(o) => Ok((o, after)),
                Err(e) => Err(e),
            },
        },
        ExprView::Binary(operator, lhs, rhs) => match eval_expression(*lhs, scope, scopes, depth) {
            Err(e) => Err(e),
            Ok((left, after_left)) => match eval_expression(*rhs, scope, after_left, depth) {
                Err(e) => Err(e),
                Ok((right, after)) => match eval_binary(operator, left, right) {
                    Ok(o) => Ok((o, after)),
                    Err(e) => Err(e),
                },
            },
        },
        ExprView::Block(statements) => eval_block(statements, scope, scopes, depth),
        ExprView::If(_, condition, action, alternate) => match eval_expression(
            *condition,
            scope,
            scopes,
            depth,
        ) {
            Err(e) => Err(e),
            Ok((value, after)) => if value.truthy() {
                eval_block(action, scope, after, depth)
            } else {
                match alternate {
                    Some(statements) => eval_block(statements, scope, after, depth),
                    None => Ok((ObjectView::Null, after)),
                }
            },
        },
        ExprView::Function(token, params, body) => Ok(
            (ObjectView::Function(token, params, body, scope), scopes),
        ),
        ExprView::Call(site, function, args) => match eval_expression(
            *function,
            scope,
            scopes,
            depth,
        ) {
            Err(e) => Err(e),
            Ok((callee, after_callee)) => match eval_arguments(
                args,
                0,
                Seq::empty(),
                scope,
                after_callee,
                depth,
            ) {
                Err(e) => Err(e),
                Ok((values, after_args)) => match enter(site, callee, values, after_args, depth) {
                    Err(e) => Err(e),
                    Ok(frame) => if depth > 0 {
                        match eval_block(
                            frame.body,
                            frame.scope,
                            frame.scopes,
                            (depth - 1) as nat,
                        ) {
                            Err(e) => Err(e),
                            Ok((value, after)) => Ok((value.unwrapped(), after)),
                        }
                    } else {
                        Err(failure("Maximum call depth exceeded"@, site))
                    },
                },
            },
        },
    }
}

/// The values of the arguments from offset `from` on, after those of `acc`.
pub open spec fn eval_arguments(
    args: Seq<ExprView>,
    from: nat,
    acc: Seq<ObjectView>,
    scope: nat,
    scopes: Seq<ScopeView>,
    depth: nat,
) -> Result<(Seq<ObjectView>, Seq<ScopeView>), EvalErrorView>
    decreases depth, args, args.len() - from,
{
    if from >= args.len() {
        Ok((acc, scopes))
    } else {
        match eval_expression(args[from as int], scope, scopes, depth) {
            Err(e) => Err(e),
            Ok((value, after)) => eval_arguments(
                args,
                from + 1,
                acc.push(value),
                scope,
                after,
                depth,
            ),
        }
    }
}

/// The value of a statement. A `let` binds the name in the scope `scope`
/// and has the value `Null`; a `return` marks its value.
pub open spec fn eval_statement(s: StmtView, scope: nat, scopes: Seq<ScopeView>, depth: nat)
    -> Evaluated
    decreases depth, s, 0nat,
{
    match s {
        StmtView::Expression(e) => eval_expression(e, scope, scopes, depth),
        StmtView::Return(_, e) => match eval_expression(e, scope, scopes, depth) {
            Err(e) => Err(e),
            Ok((value, after)) => Ok((ObjectView::Return(Box::new(value)), after)),
        },
        StmtView::Let(_, ident, e) => match eval_expression(e, scope, scopes, depth) {
            Err(e) => Err(e),
            Ok((value, after)) => match ident.kind {
                TokenKind::Ident(name) => Ok((ObjectView::Null, bind(after, scope, name, value))),
                _ => Err(failure("Expected identifier"@, ident)),
            },
        },
    }
}

/// The value of the statements from offset `from` on, where `last` is the
/// value of the statement before them: the value of the first statement
/// that is marked as returned, or else of the last statement.
pub open spec fn eval_statements(
    statements: Seq<StmtView>,
    from: nat,
    last: ObjectView,
    scope: nat,
    scopes: Seq<ScopeView>,
    depth: nat,
) -> Evaluated
    decreases depth, statements, statements.len() - from,
{
    if from >= statements.len() {
        Ok((last, scopes))
    } else {
        match eval_statement(statements[from as int], scope, scopes, depth) {
            Err(e) => Err(e),
            Ok((value, after)) => if value is Return {
                Ok((value, after))
            } else {
                eval_statements(statements, from + 1, value, scope, after, depth)
            },
        }
    }
}

/// The value of a block: `Null` if it is empty.
pub open spec fn eval_block(
    statements: Seq<StmtView>,
    scope: nat,
    scopes: Seq<ScopeView>,
    depth: nat,
) -> Evaluated
    decreases depth, statements, statements.len() + 1,
{
    eval_statements(statements, 0, ObjectView::Null, scope, scopes, depth)
}

/// The value of a node. A program is a block whose value loses the mark of
/// `return`.
pub open spec fn eval_node(node: NodeView, scope: nat, scopes: Seq<ScopeView>, depth: nat)
    -> Evaluated {
    match node {
        NodeView::Program(statements) => match eval_block(statements, scope, scopes, depth) {
            Err(e) => Err(e),
            Ok((value, after)) => Ok((value.unwrapped(), after)),
        },
        NodeView::Statement(statement) => eval_statement(statement, scope, scopes, depth),
        NodeView::Expression(expression) => eval_expression(expression, scope, scopes, depth),
    }
}

/// The scopes at the start of a program: the outermost scope, empty.
pub open spec fn root_scopes() -> Seq<ScopeView> {
    seq![ScopeView { store: Map::empty(), outer: None }]
}

/// The error object of a failed evaluation: the issue, `@`, and the offsets
/// of the token.
pub open spec fn error_object(e: EvalErrorView) -> ObjectView {
    ObjectView::Error(e.issue + " @ "@ + span_text(e.token.span))
}

/// The value of a program with at most `depth` nested calls: the value of
/// its statements in the outermost scope, without the mark of `return`; an
/// error object if evaluation fails.
pub open spec fn eval_program_within(program: Seq<StmtView>, depth: nat) -> ObjectView {
    match eval_node(NodeView::Program(program), 0, root_scopes(), depth) {
        Ok((value, _)) => value,
        Err(e) => error_object(e),
    }
}

/// The value of a program.
pub open spec fn eval_program(program: Seq<StmtView>) -> ObjectView {
    eval_program_within(program, MAX_CALL_DEPTH as nat)
}

/// The mark of `return` never leaves evaluation: the value of a program
/// does not bear it, and neither does the value of a call.
pub proof fn lemma_return_stays_inside(program: Seq<StmtView>, depth: nat)
    ensures
        !(eval_program_within(program, depth) is Return),
        !(eval_program(program) is Return),
{
    match eval_block(program, 0, root_scopes(), depth) {
        Ok((value, _)) => {
            crate::object::lemma_unwrapped_is_no_return(value);
        },
        Err(_) => {},
    }
    match eval_block(program, 0, root_scopes(), MAX_CALL_DEPTH as nat) {
        Ok((value, _)) => {
            crate::object::lemma_unwrapped_is_no_return(value);
        },
        Err(_) => {},
    }
}

} // verus!
