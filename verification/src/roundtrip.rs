//! Printing and parsing fit: the tokens that the printer writes for a well
//! formed tree are parsed as that tree.

use vstd::prelude::*;
use crate::ast::{ExprView, Program, StmtView};
use crate::parser::{ParseError, Parser};
use crate::printer::print;
use crate::grammar::{
    any_ident, first, mismatch, parse_arg_list, parse_block, parse_block_statements,
    parse_call_arg_list, parse_expression, parse_expression_statement, parse_function,
    parse_if_else, parse_infix, parse_let_statement, parse_params, parse_prefix,
    parse_program, parse_return_statement, parse_statement, parse_statements, precedence,
    right_precedence,
    prefix_precedence, ParseErrorView, Parsed,
};
use crate::printer::{
    cons, print_arguments, print_atom, print_block, print_expression, print_params,
    print_program, print_statement, print_statements, punctuation,
};
use crate::token::{TokenKind, TokenView};
use crate::wellformed::{
    is_binary_operator, is_prefix_operator, well_formed_expression, well_formed_expressions,
    well_formed_params, well_formed_statement, well_formed_statements,
};

verus! {

/// Whether an expression that is parsed with the precedence `prec` ends
/// before the tokens `rest`.
pub open spec fn stops(rest: Seq<TokenView>, prec: int) -> bool {
    rest.len() == 0 || precedence(first(rest)) < prec
}

/// Whether the tokens start with one of the given kind.
pub open spec fn starts_with(ts: Seq<TokenView>, kind: TokenKind) -> bool {
    ts.len() > 0 && ts[0].kind == kind
}

/// What `cons` is made of.
pub proof fn lemma_cons(t: TokenView, rest: Seq<TokenView>)
    ensures
        cons(t, rest).len() == rest.len() + 1,
        cons(t, rest)[0] == t,
        cons(t, rest).drop_first() == rest,
{
    assert(cons(t, rest).drop_first() =~= rest);
}

/// An expression is a prefix term and what follows it.
pub proof fn lemma_expression_from_prefix(
    ts: Seq<TokenView>,
    prec: int,
    left: ExprView,
    after: Seq<TokenView>,
)
    requires
        parse_prefix(ts) == Ok::<(ExprView, Seq<TokenView>), ParseErrorView>((left, after)),
        after.len() < ts.len(),
    ensures
        parse_expression(ts, prec) == parse_infix(left, after, prec),
{
}

/// Nothing follows a prefix term before a token that binds less tightly
/// than is asked for.
pub proof fn lemma_infix_stops(left: ExprView, ts: Seq<TokenView>, prec: int)
    requires
        stops(ts, prec),
    ensures
        parse_infix(left, ts, prec) == Ok::<(ExprView, Seq<TokenView>), ParseErrorView>(
            (left, ts),
        ),
{
}

/// An expression that ends where it is asked to is its prefix term.
pub proof fn lemma_expression_is_prefix(
    ts: Seq<TokenView>,
    prec: int,
    left: ExprView,
    after: Seq<TokenView>,
)
    requires
        parse_prefix(ts) == Ok::<(ExprView, Seq<TokenView>), ParseErrorView>((left, after)),
        after.len() < ts.len(),
        stops(after, prec),
    ensures
        parse_expression(ts, prec) == Ok::<(ExprView, Seq<TokenView>), ParseErrorView>(
            (left, after),
        ),
{
    lemma_expression_from_prefix(ts, prec, left, after);
    lemma_infix_stops(left, after, prec);
}

/// A binary operator after a prefix term takes the expression after it as
/// its right operand.
pub proof fn lemma_infix_binary(
    left: ExprView,
    ts: Seq<TokenView>,
    prec: int,
    right: ExprView,
    after: Seq<TokenView>,
)
    requires
        ts.len() > 0,
        is_binary_operator(ts[0].kind),
        prec <= precedence(first(ts)),
        parse_expression(ts.drop_first(), right_precedence(first(ts))) == Ok::<
            (ExprView, Seq<TokenView>),
            ParseErrorView,
        >((right, after)),
        after.len() < ts.len(),
        stops(after, prec),
    ensures
        parse_infix(left, ts, prec) == Ok::<(ExprView, Seq<TokenView>), ParseErrorView>(
            (ExprView::Binary(ts[0], Box::new(left), Box::new(right)), after),
        ),
{
    lemma_infix_stops(ExprView::Binary(ts[0], Box::new(left), Box::new(right)), after, prec);
}

/// An opening parenthesis after a prefix term takes the arguments after it
/// for a call.
pub proof fn lemma_infix_call(
    left: ExprView,
    ts: Seq<TokenView>,
    prec: int,
    args: Seq<ExprView>,
    after: Seq<TokenView>,
)
    requires
        ts.len() > 0,
        ts[0].kind is Lparen,
        prec <= 110,
        parse_call_arg_list(ts.drop_first(), None, Seq::empty()) == Ok::<
            (Seq<ExprView>, Seq<TokenView>),
            ParseErrorView,
        >((args, after)),
        after.len() < ts.len(),
        stops(after, prec),
    ensures
        parse_infix(left, ts, prec) == Ok::<(ExprView, Seq<TokenView>), ParseErrorView>(
            (ExprView::Call(ts[0], Box::new(left), args), after),
        ),
{
    lemma_infix_stops(ExprView::Call(ts[0], Box::new(left), args), after, prec);
}

/// An expression in parentheses is a prefix term.
pub proof fn lemma_prefix_parenthesis(
    ts: Seq<TokenView>,
    inner: ExprView,
    after: Seq<TokenView>,
)
    requires
        ts.len() > 0,
        ts[0].kind is Lparen,
        parse_expression(ts.drop_first(), 0) == Ok::<(ExprView, Seq<TokenView>), ParseErrorView>(
            (inner, after),
        ),
        starts_with(after, TokenKind::Rparen),
    ensures
        parse_prefix(ts) == Ok::<(ExprView, Seq<TokenView>), ParseErrorView>(
            (inner, after.drop_first()),
        ),
{
}

/// A prefix operator and the expression after it are a prefix term.
pub proof fn lemma_prefix_unary(ts: Seq<TokenView>, operand: ExprView, after: Seq<TokenView>)
    requires
        ts.len() > 0,
        is_prefix_operator(ts[0].kind),
        parse_expression(ts.drop_first(), prefix_precedence()) == Ok::<
            (ExprView, Seq<TokenView>),
            ParseErrorView,
        >((operand, after)),
    ensures
        parse_prefix(ts) == Ok::<(ExprView, Seq<TokenView>), ParseErrorView>(
            (ExprView::Unary(ts[0], Box::new(operand)), after),
        ),
{
}

/// A block is a prefix term.
pub proof fn lemma_prefix_block(
    ts: Seq<TokenView>,
    statements: Seq<StmtView>,
    after: Seq<TokenView>,
)
    requires
        ts.len() > 0,
        ts[0].kind is Lbrace,
        parse_block(ts) == Ok::<(Seq<StmtView>, Seq<TokenView>), ParseErrorView>(
            (statements, after),
        ),
    ensures
        parse_prefix(ts) == Ok::<(ExprView, Seq<TokenView>), ParseErrorView>(
            (ExprView::Block(statements), after),
        ),
{
}

/// An `if` is a prefix term.
pub proof fn lemma_prefix_if(ts: Seq<TokenView>)
    requires
        ts.len() > 0,
        ts[0].kind is If,
    ensures
        parse_prefix(ts) == parse_if_else(ts),
{
}

/// A function literal is a prefix term.
pub proof fn lemma_prefix_function(ts: Seq<TokenView>)
    requires
        ts.len() > 0,
        ts[0].kind is Function,
    ensures
        parse_prefix(ts) == parse_function(ts),
{
}

/// An `if` is its keyword, a condition, a block and, after `else`, a
/// second block.
pub proof fn lemma_if_else(
    ts: Seq<TokenView>,
    condition: ExprView,
    after_condition: Seq<TokenView>,
    action: Seq<StmtView>,
    after_action: Seq<TokenView>,
    alternate: Seq<StmtView>,
    after_alternate: Seq<TokenView>,
)
    requires
        ts.len() > 0,
        ts[0].kind is If,
        parse_expression(ts.drop_first(), 0) == Ok::<(ExprView, Seq<TokenView>), ParseErrorView>(
            (condition, after_condition),
        ),
        after_condition.len() < ts.len(),
        parse_block(after_condition) == Ok::<(Seq<StmtView>, Seq<TokenView>), ParseErrorView>(
            (action, after_action),
        ),
        after_action.len() < ts.len(),
        starts_with(after_action, TokenKind::Else),
        parse_block(after_action.drop_first()) == Ok::<
            (Seq<StmtView>, Seq<TokenView>),
            ParseErrorView,
        >((alternate, after_alternate)),
    ensures
        parse_if_else(ts) == Ok::<(ExprView, Seq<TokenView>), ParseErrorView>(
            (
                ExprView::If(ts[0], Box::new(condition), action, Some(alternate)),
                after_alternate,
            ),
        ),
{
}

/// An `if` without `else` is its keyword, a condition and a block.
pub proof fn lemma_if_alone(
    ts: Seq<TokenView>,
    condition: ExprView,
    after_condition: Seq<TokenView>,
    action: Seq<StmtView>,
    after_action: Seq<TokenView>,
)
    requires
        ts.len() > 0,
        ts[0].kind is If,
        parse_expression(ts.drop_first(), 0) == Ok::<(ExprView, Seq<TokenView>), ParseErrorView>(
            (condition, after_condition),
        ),
        after_condition.len() < ts.len(),
        parse_block(after_condition) == Ok::<(Seq<StmtView>, Seq<TokenView>), ParseErrorView>(
            (action, after_action),
        ),
        !starts_with(after_action, TokenKind::Else),
    ensures
        parse_if_else(ts) == Ok::<(ExprView, Seq<TokenView>), ParseErrorView>(
            (ExprView::If(ts[0], Box::new(condition), action, None), after_action),
        ),
{
}

/// A function literal is its keyword, the parameters in parentheses, and
/// a block.
pub proof fn lemma_function(
    ts: Seq<TokenView>,
    params: Seq<TokenView>,
    after_params: Seq<TokenView>,
    body: Seq<StmtView>,
    after_body: Seq<TokenView>,
)
    requires
        ts.len() > 1,
        ts[0].kind is Function,
        ts[1].kind is Lparen,
        parse_params(ts.drop_first().drop_first(), None, Seq::empty()) == Ok::<
            (Seq<TokenView>, Seq<TokenView>),
            ParseErrorView,
        >((params, after_params)),
        after_params.len() < ts.len(),
        parse_block(after_params) == Ok::<(Seq<StmtView>, Seq<TokenView>), ParseErrorView>(
            (body, after_body),
        ),
    ensures
        parse_function(ts) == Ok::<(ExprView, Seq<TokenView>), ParseErrorView>(
            (ExprView::Function(ts[0], params, body), after_body),
        ),
{
    assert(ts.drop_first()[0] == ts[1]);
    assert(parse_arg_list(ts.drop_first()) == parse_params(
        ts.drop_first().drop_first(),
        None,
        Seq::empty(),
    ));
}

/// The parameters that the printer writes are parsed as they are.
pub proof fn lemma_params_roundtrip(
    params: Seq<TokenView>,
    from: nat,
    acc: Seq<TokenView>,
    rest: Seq<TokenView>,
)
    requires
        well_formed_params(params),
        from <= params.len(),
    ensures
        parse_params(
            print_params(params, from, cons(punctuation(TokenKind::Rparen), rest)),
            None,
            acc,
        ) == Ok::<(Seq<TokenView>, Seq<TokenView>), ParseErrorView>(
            (acc + params.subrange(from as int, params.len() as int), rest),
        ),
        print_params(params, from, cons(punctuation(TokenKind::Rparen), rest)).len() > rest.len(),
    decreases params.len() - from,
{
    let close = cons(punctuation(TokenKind::Rparen), rest);
    lemma_cons(punctuation(TokenKind::Rparen), rest);
    let ts = print_params(params, from, close);
    if from >= params.len() {
        assert(acc + params.subrange(from as int, params.len() as int) =~= acc);
    } else {
        let tail = print_params(params, from + 1, close);
        let after_name = cons(punctuation(TokenKind::Comma), tail);
        lemma_cons(params[from as int], after_name);
        lemma_cons(punctuation(TokenKind::Comma), tail);
        lemma_params_roundtrip(params, from + 1, acc.push(params[from as int]), rest);
        assert(acc.push(params[from as int]) + params.subrange(
            from as int + 1,
            params.len() as int,
        ) =~= acc + params.subrange(from as int, params.len() as int));
        assert(mismatch(ts, TokenKind::Rparen) is Some);
        assert(mismatch(ts, any_ident()) is None);
        assert(mismatch(ts.drop_first(), TokenKind::Comma) is None);
    }
}

/// A block is its statements between braces.
pub proof fn lemma_block(ts: Seq<TokenView>, statements: Seq<StmtView>, after: Seq<TokenView>)
    requires
        starts_with(ts, TokenKind::Lbrace),
        parse_block_statements(ts.drop_first(), Seq::empty()) == Ok::<
            (Seq<StmtView>, Seq<TokenView>),
            ParseErrorView,
        >((statements, after)),
    ensures
        parse_block(ts) == Ok::<(Seq<StmtView>, Seq<TokenView>), ParseErrorView>(
            (statements, after),
        ),
{
}

/// The statements of a block end at its closing brace.
pub proof fn lemma_block_statements_end(ts: Seq<TokenView>, acc: Seq<StmtView>)
    requires
        starts_with(ts, TokenKind::Rbrace),
    ensures
        parse_block_statements(ts, acc) == Ok::<(Seq<StmtView>, Seq<TokenView>), ParseErrorView>(
            (acc, ts.drop_first()),
        ),
{
}

/// The statements of a block go on after each statement.
pub proof fn lemma_block_statements_step(
    ts: Seq<TokenView>,
    acc: Seq<StmtView>,
    statement: StmtView,
    after: Seq<TokenView>,
)
    requires
        ts.len() > 0,
        !(ts[0].kind is Rbrace),
        parse_statement(ts) == Ok::<(StmtView, Seq<TokenView>), ParseErrorView>(
            (statement, after),
        ),
        after.len() < ts.len(),
    ensures
        parse_block_statements(ts, acc) == parse_block_statements(after, acc.push(statement)),
{
}

/// The arguments of a call end at its closing parenthesis.
pub proof fn lemma_arguments_end(ts: Seq<TokenView>, acc: Seq<ExprView>)
    requires
        starts_with(ts, TokenKind::Rparen),
    ensures
        parse_call_arg_list(ts, None, acc) == Ok::<
            (Seq<ExprView>, Seq<TokenView>),
            ParseErrorView,
        >((acc, ts.drop_first())),
{
}

/// The arguments of a call go on after each argument and its comma.
pub proof fn lemma_arguments_step(
    ts: Seq<TokenView>,
    acc: Seq<ExprView>,
    arg: ExprView,
    after: Seq<TokenView>,
)
    requires
        ts.len() > 0,
        !(ts[0].kind is Rparen),
        parse_expression(ts, 0) == Ok::<(ExprView, Seq<TokenView>), ParseErrorView>((arg, after)),
        after.len() < ts.len(),
        starts_with(after, TokenKind::Comma),
    ensures
        parse_call_arg_list(ts, None, acc) == parse_call_arg_list(
            after.drop_first(),
            None,
            acc.push(arg),
        ),
{
}

/// A statement that starts with `let` is a name, `=`, a value and a
/// semicolon.
pub proof fn lemma_statement_let(ts: Seq<TokenView>, value: ExprView, after: Seq<TokenView>)
    requires
        ts.len() > 2,
        ts[0].kind is Let,
        ts[1].kind is Ident,
        ts[2].kind is Assign,
        parse_expression(ts.drop_first().drop_first().drop_first(), 0) == Ok::<
            (ExprView, Seq<TokenView>),
            ParseErrorView,
        >((value, after)),
        starts_with(after, TokenKind::Semicolon),
    ensures
        parse_statement(ts) == Ok::<(StmtView, Seq<TokenView>), ParseErrorView>(
            (StmtView::Let(ts[0], ts[1], value), after.drop_first()),
        ),
{
    assert(ts.drop_first()[0] == ts[1]);
    assert(ts.drop_first().drop_first()[0] == ts[2]);
    assert(parse_let_statement(ts) == Ok::<(StmtView, Seq<TokenView>), ParseErrorView>(
        (StmtView::Let(ts[0], ts[1], value), after),
    ));
}

/// A statement that starts with `return` is a value and a semicolon.
pub proof fn lemma_statement_return(ts: Seq<TokenView>, value: ExprView, after: Seq<TokenView>)
    requires
        ts.len() > 0,
        ts[0].kind is Return,
        parse_expression(ts.drop_first(), 0) == Ok::<(ExprView, Seq<TokenView>), ParseErrorView>(
            (value, after),
        ),
        starts_with(after, TokenKind::Semicolon),
    ensures
        parse_statement(ts) == Ok::<(StmtView, Seq<TokenView>), ParseErrorView>(
            (StmtView::Return(ts[0], value), after.drop_first()),
        ),
{
    assert(parse_return_statement(ts) == Ok::<(StmtView, Seq<TokenView>), ParseErrorView>(
        (StmtView::Return(ts[0], value), after),
    ));
}

/// Any other statement is an expression and a semicolon.
pub proof fn lemma_statement_expression(ts: Seq<TokenView>, value: ExprView, after: Seq<TokenView>)
    requires
        ts.len() > 0,
        !(ts[0].kind is Let),
        !(ts[0].kind is Return),
        parse_expression(ts, 0) == Ok::<(ExprView, Seq<TokenView>), ParseErrorView>(
            (value, after),
        ),
        starts_with(after, TokenKind::Semicolon),
    ensures
        parse_statement(ts) == Ok::<(StmtView, Seq<TokenView>), ParseErrorView>(
            (StmtView::Expression(value), after.drop_first()),
        ),
{
    assert(parse_expression_statement(ts) == Ok::<(StmtView, Seq<TokenView>), ParseErrorView>(
        (StmtView::Expression(value), after),
    ));
}

/// Whether the tokens start as a printed statement does: with `let`,
/// `return` or an opening parenthesis.
pub open spec fn starts_statement(ts: Seq<TokenView>) -> bool {
    ts.len() > 0 && (ts[0].kind is Let || ts[0].kind is Return || ts[0].kind is Lparen)
}

/// The tokens that the printer writes for an expression in parentheses are
/// parsed as that expression, whatever follows them.
pub proof fn lemma_atom_roundtrip(e: ExprView, rest: Seq<TokenView>)
    requires
        well_formed_expression(e),
    ensures
        parse_prefix(print_atom(e, rest)) == Ok::<(ExprView, Seq<TokenView>), ParseErrorView>(
            (e, rest),
        ),
        print_atom(e, rest).len() > rest.len(),
        starts_with(print_atom(e, rest), TokenKind::Lparen),
    decreases e, 1nat,
{
    let close = cons(punctuation(TokenKind::Rparen), rest);
    let inner = print_expression(e, close);
    let ts = cons(punctuation(TokenKind::Lparen), inner);
    lemma_cons(punctuation(TokenKind::Rparen), rest);
    lemma_cons(punctuation(TokenKind::Lparen), inner);
    lemma_inner_roundtrip(e, close);
    lemma_prefix_parenthesis(ts, e, close);
}

/// The tokens that the printer writes for an expression in parentheses are
/// parsed as that expression before any token that binds less tightly than
/// is asked for.
pub proof fn lemma_atom_parsed(e: ExprView, rest: Seq<TokenView>, prec: int)
    requires
        well_formed_expression(e),
        stops(rest, prec),
    ensures
        parse_expression(print_atom(e, rest), prec) == Ok::<
            (ExprView, Seq<TokenView>),
            ParseErrorView,
        >((e, rest)),
        print_atom(e, rest).len() > rest.len(),
        starts_with(print_atom(e, rest), TokenKind::Lparen),
    decreases e, 2nat,
{
    lemma_atom_roundtrip(e, rest);
    lemma_expression_is_prefix(print_atom(e, rest), prec, e, rest);
}

/// The tokens that the printer writes for an expression are parsed as that
/// expression before a closing parenthesis.
pub proof fn lemma_inner_roundtrip(e: ExprView, rest: Seq<TokenView>)
    requires
        well_formed_expression(e),
        starts_with(rest, TokenKind::Rparen),
    ensures
        parse_expression(print_expression(e, rest), 0) == Ok::<
            (ExprView, Seq<TokenView>),
            ParseErrorView,
        >((e, rest)),
        print_expression(e, rest).len() > rest.len(),
    decreases e, 0nat,
{
    let ts = print_expression(e, rest);
    match e {
        ExprView::Ident(t) => {
            lemma_cons(t, rest);
            assert(parse_prefix(ts) == Ok::<(ExprView, Seq<TokenView>), ParseErrorView>((e, rest)));
            lemma_expression_is_prefix(ts, 0, e, rest);
        },
        ExprView::Int(t) => {
            lemma_cons(t, rest);
            assert(parse_prefix(ts) == Ok::<(ExprView, Seq<TokenView>), ParseErrorView>((e, rest)));
            lemma_expression_is_prefix(ts, 0, e, rest);
        },
        ExprView::Bool(t) => {
            lemma_cons(t, rest);
            assert(parse_prefix(ts) == Ok::<(ExprView, Seq<TokenView>), ParseErrorView>((e, rest)));
            lemma_expression_is_prefix(ts, 0, e, rest);
        },
        ExprView::Unary(operator, operand) => {
            let atom = print_atom(*operand, rest);
            lemma_atom_parsed(*operand, rest, prefix_precedence());
            lemma_cons(operator, atom);
            lemma_prefix_unary(ts, *operand, rest);
            lemma_expression_is_prefix(ts, 0, e, rest);
        },
        ExprView::Binary(operator, lhs, rhs) => {
            let right = print_atom(*rhs, rest);
            let from_operator = cons(operator, right);
            lemma_cons(operator, right);
            lemma_atom_roundtrip(*lhs, from_operator);
            lemma_atom_parsed(*rhs, rest, right_precedence(Some(operator)));
            lemma_infix_binary(*lhs, from_operator, 0, *rhs, rest);
            lemma_expression_from_prefix(ts, 0, *lhs, from_operator);
        },
        ExprView::Block(statements) => {
            lemma_block_roundtrip(statements, rest);
            lemma_prefix_block(ts, statements, rest);
            lemma_expression_is_prefix(ts, 0, e, rest);
        },
        ExprView::If(t, condition, action, alternate) => {
            let tail = match alternate {
                Some(statements) => cons(
                    punctuation(TokenKind::Else),
                    print_block(statements, rest),
                ),
                None => rest,
            };
            let block = print_block(action, tail);
            let atom = print_atom(*condition, block);
            lemma_block_roundtrip(action, tail);
            lemma_atom_parsed(*condition, block, 0);
            lemma_cons(t, atom);
            match alternate {
                Some(statements) => {
                    lemma_block_roundtrip(statements, rest);
                    lemma_cons(punctuation(TokenKind::Else), print_block(statements, rest));
                    lemma_if_else(ts, *condition, block, action, tail, statements, rest);
                },
                None => {
                    lemma_if_alone(ts, *condition, block, action, tail);
                },
            }
            lemma_prefix_if(ts);
            lemma_expression_is_prefix(ts, 0, e, rest);
        },
        ExprView::Function(t, params, body) => {
            let block = print_block(body, rest);
            let close = cons(punctuation(TokenKind::Rparen), block);
            let listed = print_params(params, 0, close);
            let open = cons(punctuation(TokenKind::Lparen), listed);
            lemma_block_roundtrip(body, rest);
            lemma_params_roundtrip(params, 0, Seq::empty(), block);
            assert(Seq::<TokenView>::empty() + params.subrange(0, params.len() as int) =~= params);
            lemma_cons(punctuation(TokenKind::Lparen), listed);
            lemma_cons(t, open);
            lemma_function(ts, params, block, body, rest);
            lemma_prefix_function(ts);
            lemma_expression_is_prefix(ts, 0, e, rest);
        },
        ExprView::Call(site, function, args) => {
            let close = cons(punctuation(TokenKind::Rparen), rest);
            let listed = print_arguments(args, 0, close);
            let from_site = cons(site, listed);
            lemma_cons(site, listed);
            lemma_atom_roundtrip(*function, from_site);
            lemma_arguments_roundtrip(args, 0, Seq::empty(), rest);
            assert(Seq::<ExprView>::empty() + args.subrange(0, args.len() as int) =~= args);
            lemma_infix_call(*function, from_site, 0, args, rest);
            lemma_expression_from_prefix(ts, 0, *function, from_site);
        },
    }
}

/// The tokens that the printer writes for a block are parsed as that
/// block.
pub proof fn lemma_block_roundtrip(statements: Seq<StmtView>, rest: Seq<TokenView>)
    requires
        well_formed_statements(statements, 0),
    ensures
        parse_block(print_block(statements, rest)) == Ok::<
            (Seq<StmtView>, Seq<TokenView>),
            ParseErrorView,
        >((statements, rest)),
        print_block(statements, rest).len() > rest.len(),
        starts_with(print_block(statements, rest), TokenKind::Lbrace),
    decreases statements, statements.len() + 1,
{
    let close = cons(punctuation(TokenKind::Rbrace), rest);
    let listed = print_statements(statements, 0, close);
    lemma_cons(punctuation(TokenKind::Rbrace), rest);
    lemma_cons(punctuation(TokenKind::Lbrace), listed);
    lemma_block_statements_roundtrip(statements, 0, Seq::empty(), rest);
    assert(Seq::<StmtView>::empty() + statements.subrange(0, statements.len() as int)
        =~= statements);
    lemma_block(print_block(statements, rest), statements, rest);
}

/// The tokens that the printer writes for the statements of a block are
/// parsed as those statements.
pub proof fn lemma_block_statements_roundtrip(
    statements: Seq<StmtView>,
    from: nat,
    acc: Seq<StmtView>,
    rest: Seq<TokenView>,
)
    requires
        well_formed_statements(statements, from),
        from <= statements.len(),
    ensures
        parse_block_statements(
            print_statements(statements, from, cons(punctuation(TokenKind::Rbrace), rest)),
            acc,
        ) == Ok::<(Seq<StmtView>, Seq<TokenView>), ParseErrorView>(
            (acc + statements.subrange(from as int, statements.len() as int), rest),
        ),
        print_statements(statements, from, cons(punctuation(TokenKind::Rbrace), rest)).len()
            > rest.len(),
    decreases statements, statements.len() - from,
{
    let close = cons(punctuation(TokenKind::Rbrace), rest);
    lemma_cons(punctuation(TokenKind::Rbrace), rest);
    let ts = print_statements(statements, from, close);
    if from >= statements.len() {
        lemma_block_statements_end(close, acc);
        assert(acc + statements.subrange(from as int, statements.len() as int) =~= acc);
    } else {
        let s = statements[from as int];
        let tail = print_statements(statements, from + 1, close);
        lemma_block_statements_roundtrip(statements, from + 1, acc.push(s), rest);
        lemma_statement_roundtrip(s, tail);
        lemma_block_statements_step(ts, acc, s, tail);
        assert(acc.push(s) + statements.subrange(from as int + 1, statements.len() as int)
            =~= acc + statements.subrange(from as int, statements.len() as int));
    }
}

/// The tokens that the printer writes for a statement are parsed as that
/// statement.
pub proof fn lemma_statement_roundtrip(s: StmtView, rest: Seq<TokenView>)
    requires
        well_formed_statement(s),
    ensures
        parse_statement(print_statement(s, rest)) == Ok::<
            (StmtView, Seq<TokenView>),
            ParseErrorView,
        >((s, rest)),
        print_statement(s, rest).len() > rest.len(),
        starts_statement(print_statement(s, rest)),
    decreases s, 0nat,
{
    let end = cons(punctuation(TokenKind::Semicolon), rest);
    lemma_cons(punctuation(TokenKind::Semicolon), rest);
    let ts = print_statement(s, rest);
    match s {
        StmtView::Let(t, ident, e) => {
            let atom = print_atom(e, end);
            let from_assign = cons(punctuation(TokenKind::Assign), atom);
            let from_ident = cons(ident, from_assign);
            lemma_atom_parsed(e, end, 0);
            lemma_cons(punctuation(TokenKind::Assign), atom);
            lemma_cons(ident, from_assign);
            lemma_cons(t, from_ident);
            lemma_statement_let(ts, e, end);
        },
        StmtView::Return(t, e) => {
            let atom = print_atom(e, end);
            lemma_atom_parsed(e, end, 0);
            lemma_cons(t, atom);
            lemma_statement_return(ts, e, end);
        },
        StmtView::Expression(e) => {
            lemma_atom_parsed(e, end, 0);
            lemma_statement_expression(ts, e, end);
        },
    }
}

/// The tokens that the printer writes for the arguments of a call are
/// parsed as those arguments.
pub proof fn lemma_arguments_roundtrip(
    args: Seq<ExprView>,
    from: nat,
    acc: Seq<ExprView>,
    rest: Seq<TokenView>,
)
    requires
        well_formed_expressions(args, from),
        from <= args.len(),
    ensures
        parse_call_arg_list(
            print_arguments(args, from, cons(punctuation(TokenKind::Rparen), rest)),
            None,
            acc,
        ) == Ok::<(Seq<ExprView>, Seq<TokenView>), ParseErrorView>(
            (acc + args.subrange(from as int, args.len() as int), rest),
        ),
        print_arguments(args, from, cons(punctuation(TokenKind::Rparen), rest)).len()
            > rest.len(),
    decreases args, args.len() - from,
{
    let close = cons(punctuation(TokenKind::Rparen), rest);
    lemma_cons(punctuation(TokenKind::Rparen), rest);
    let ts = print_arguments(args, from, close);
    if from >= args.len() {
        lemma_arguments_end(close, acc);
        assert(acc + args.subrange(from as int, args.len() as int) =~= acc);
    } else {
        let arg = args[from as int];
        let tail = print_arguments(args, from + 1, close);
        let from_comma = cons(punctuation(TokenKind::Comma), tail);
        lemma_cons(punctuation(TokenKind::Comma), tail);
        lemma_arguments_roundtrip(args, from + 1, acc.push(arg), rest);
        lemma_atom_parsed(arg, from_comma, 0);
        lemma_arguments_step(ts, acc, arg, from_comma);
        assert(acc.push(arg) + args.subrange(from as int + 1, args.len() as int) =~= acc
            + args.subrange(from as int, args.len() as int));
    }
}

/// The statements that the tokens `ts` to their end spell, after those of
/// `acc`.
#[verifier::opaque]
pub open spec fn parsed_to_end(ts: Seq<TokenView>, acc: Seq<StmtView>) -> Result<
    Seq<StmtView>,
    ParseErrorView,
> {
    parse_statements(ts, acc)
}

/// The statements of a program end with its tokens.
pub proof fn lemma_statements_end(ts: Seq<TokenView>, acc: Seq<StmtView>)
    requires
        ts.len() == 0,
    ensures
        parsed_to_end(ts, acc) == Ok::<Seq<StmtView>, ParseErrorView>(acc),
{
    reveal(parsed_to_end);
}

/// The statements of a program go on after each statement.
pub proof fn lemma_statements_step(
    ts: Seq<TokenView>,
    acc: Seq<StmtView>,
    statement: StmtView,
    after: Seq<TokenView>,
)
    requires
        ts.len() > 0,
        parse_statement(ts) == Ok::<(StmtView, Seq<TokenView>), ParseErrorView>(
            (statement, after),
        ),
        after.len() < ts.len(),
    ensures
        parsed_to_end(ts, acc) == parsed_to_end(after, acc.push(statement)),
{
    reveal(parsed_to_end);
}

/// The tokens that the printer writes for the statements of a program are
/// parsed as those statements.
pub proof fn lemma_statements_roundtrip(statements: Seq<StmtView>, from: nat, acc: Seq<StmtView>)
    requires
        well_formed_statements(statements, from),
        from <= statements.len(),
    ensures
        parsed_to_end(print_statements(statements, from, Seq::empty()), acc) == Ok::<
            Seq<StmtView>,
            ParseErrorView,
        >(acc + statements.subrange(from as int, statements.len() as int)),
    decreases statements.len() - from,
{
    let ts = print_statements(statements, from, Seq::empty());
    if from >= statements.len() {
        lemma_statements_end(ts, acc);
        assert(acc + statements.subrange(from as int, statements.len() as int) =~= acc);
    } else {
        let s = statements[from as int];
        let tail = print_statements(statements, from + 1, Seq::empty());
        lemma_statements_roundtrip(statements, from + 1, acc.push(s));
        lemma_statement_roundtrip(s, tail);
        lemma_statements_step(ts, acc, s, tail);
        assert(acc.push(s) + statements.subrange(from as int + 1, statements.len() as int)
            =~= acc + statements.subrange(from as int, statements.len() as int));
    }
}

/// Printing and parsing fit: the tokens that the printer writes for a well
/// formed program are parsed as that program.
pub proof fn theorem_print_parse_roundtrip(program: Seq<StmtView>)
    requires
        well_formed_statements(program, 0),
    ensures
        parse_program(print_program(program)) == Ok::<Seq<StmtView>, ParseErrorView>(program),
{
    reveal(parsed_to_end);
    lemma_statements_roundtrip(program, 0, Seq::empty());
    assert(Seq::<StmtView>::empty() + program.subrange(0, program.len() as int) =~= program);
}

/// Prints a program and parses what was printed. For a well formed program
/// that gives the program back.
pub fn reparse(program: &Program) -> (r: Result<Program, ParseError>)
    ensures
        match r {
            Ok(again) => parse_program(print_program(program@)) == Ok::<
                Seq<StmtView>,
                ParseErrorView,
            >(again@),
            Err(e) => parse_program(print_program(program@)) == Err::<
                Seq<StmtView>,
                ParseErrorView,
            >(e@),
        },
        well_formed_statements(program@, 0) ==> r is Ok && r->Ok_0@ == program@,
{
    let tokens = print(program);
    let mut parser = Parser::from_tokens(tokens);
    proof {
        if well_formed_statements(program@, 0) {
            theorem_print_parse_roundtrip(program@);
        }
    }
    parser.parse_program()
}

} // verus!