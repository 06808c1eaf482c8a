//! The printer: from a syntax tree back to tokens that spell it. Every
//! operand, condition, argument and statement value stands in parentheses,
//! every statement ends in a semicolon, and a comma follows every parameter
//! and argument, so that the tokens can be read in one way only.

use vstd::prelude::*;
use crate::ast::{
    view_expressions, view_idents, view_statements, ExprView, ExpressionNode, Ident, Program,
    StatementNode, StmtView,
};
use crate::source::{reversed, view_tokens};
use crate::token::{Token, TokenKind, TokenType, TokenView};

verus! {

/// A token that the tree does not hold: it has no place in a text.
pub open spec fn punctuation(kind: TokenKind) -> TokenView {
    TokenView { kind, span: (0, 0) }
}

/// The token `t` before the tokens `rest`.
pub open spec fn cons(t: TokenView, rest: Seq<TokenView>) -> Seq<TokenView> {
    seq![t] + rest
}

/// The tokens of an expression, before the tokens `rest`.
pub open spec fn print_expression(e: ExprView, rest: Seq<TokenView>) -> Seq<TokenView>
    decreases e, 0nat,
{
    match e {
        ExprView::Ident(t) => cons(t, rest),
        ExprView::Int(t) => cons(t, rest),
        ExprView::Bool(t) => cons(t, rest),
        ExprView::Unary(operator, operand) => cons(operator, print_atom(*operand, rest)),
        ExprView::Binary(operator, lhs, rhs) => print_atom(
            *lhs,
            cons(operator, print_atom(*rhs, rest)),
        ),
        ExprView::Block(statements) => print_block(statements, rest),
        ExprView::If(t, condition, action, alternate) => cons(
            t,
            print_atom(
                *condition,
                print_block(
                    action,
                    match alternate {
                        Some(statements) => cons(
                            punctuation(TokenKind::Else),
                            print_block(statements, rest),
                        ),
                        None => rest,
                    },
                ),
            ),
        ),
        ExprView::Function(t, params, body) => cons(
            t,
            cons(
                punctuation(TokenKind::Lparen),
                print_params(
                    params,
                    0,
                    cons(punctuation(TokenKind::Rparen), print_block(body, rest)),
                ),
            ),
        ),
        ExprView::Call(site, function, args) => print_atom(
            *function,
            cons(site, print_arguments(args, 0, cons(punctuation(TokenKind::Rparen), rest))),
        ),
    }
}

/// The tokens of an expression in parentheses, before the tokens `rest`.
pub open spec fn print_atom(e: ExprView, rest: Seq<TokenView>) -> Seq<TokenView>
    decreases e, 1nat,
{
    cons(
        punctuation(TokenKind::Lparen),
        print_expression(e, cons(punctuation(TokenKind::Rparen), rest)),
    )
}

/// The tokens of a block with its braces, before the tokens `rest`.
pub open spec fn print_block(statements: Seq<StmtView>, rest: Seq<TokenView>) -> Seq<TokenView>
    decreases statements, statements.len() + 1,
{
    cons(
        punctuation(TokenKind::Lbrace),
        print_statements(statements, 0, cons(punctuation(TokenKind::Rbrace), rest)),
    )
}

/// The tokens of the statements from offset `from` on, before the tokens
/// `rest`.
pub open spec fn print_statements(statements: Seq<StmtView>, from: nat, rest: Seq<TokenView>)
    -> Seq<TokenView>
    decreases statements, statements.len() - from,
{
    if from >= statements.len() {
        rest
    } else {
        print_statement(statements[from as int], print_statements(statements, from + 1, rest))
    }
}

/// The tokens of a statement with its semicolon, before the tokens `rest`.
pub open spec fn print_statement(s: StmtView, rest: Seq<TokenView>) -> Seq<TokenView>
    decreases s, 0nat,
{
    match s {
        StmtView::Let(t, ident, e) => cons(
            t,
            cons(
                ident,
                cons(
                    punctuation(TokenKind::Assign),
                    print_atom(e, cons(punctuation(TokenKind::Semicolon), rest)),
                ),
            ),
        ),
        StmtView::Return(t, e) => cons(
            t,
            print_atom(e, cons(punctuation(TokenKind::Semicolon), rest)),
        ),
        StmtView::Expression(e) => print_atom(e, cons(punctuation(TokenKind::Semicolon), rest)),
    }
}

/// The parameters from offset `from` on, each with a comma after it,
/// before the tokens `rest`.
pub open spec fn print_params(params: Seq<TokenView>, from: nat, rest: Seq<TokenView>) -> Seq<
    TokenView,
>
    decreases params.len() - from,
{
    if from >= params.len() {
        rest
    } else {
        cons(
            params[from as int],
            cons(punctuation(TokenKind::Comma), print_params(params, from + 1, rest)),
        )
    }
}

/// The arguments from offset `from` on, each in parentheses and with a
/// comma after it, before the tokens `rest`.
pub open spec fn print_arguments(args: Seq<ExprView>, from: nat, rest: Seq<TokenView>) -> Seq<
    TokenView,
>
    decreases args, args.len() - from,
{
    if from >= args.len() {
        rest
    } else {
        print_atom(
            args[from as int],
            cons(punctuation(TokenKind::Comma), print_arguments(args, from + 1, rest)),
        )
    }
}

/// The tokens of a program.
pub open spec fn print_program(program: Seq<StmtView>) -> Seq<TokenView> {
    print_statements(program, 0, Seq::empty())
}

/// The views of a list of tokens, the last one first.
pub open spec fn backwards(v: Seq<Token>) -> Seq<TokenView> {
    Seq::new(v.len(), |i: int| v[v.len() - 1 - i]@)
}

/// Puts a token before the tokens of `out`, which holds them last first.
fn put(out: &mut Vec<Token>, token: Token)
    ensures
        backwards(final(out)@) == cons(token@, backwards(old(out)@)),
{
    out.push(token);
    assert(backwards(out@) =~= cons(token@, backwards(old(out)@)));
}

/// Puts a token that the tree does not hold before the tokens of `out`.
fn put_punctuation(out: &mut Vec<Token>, kind: TokenType)
    ensures
        backwards(final(out)@) == cons(punctuation(kind@), backwards(old(out)@)),
{
    put(out, Token::new(kind, (0, 0)));
}

/// Puts the tokens of an expression before the tokens of `out`.
fn put_expression(e: &ExpressionNode, out: &mut Vec<Token>)
    ensures
        backwards(final(out)@) == print_expression(e@, backwards(old(out)@)),
    decreases e, 0nat,
{
    match e {
        ExpressionNode::Ident(t) => put(out, t.clone()),
        ExpressionNode::Int(t) => put(out, t.clone()),
        ExpressionNode::Bool(t) => put(out, t.clone()),
        ExpressionNode::UnaryOperator(operator, operand) => {
            put_atom(operand, out);
            put(out, operator.clone());
        },
        ExpressionNode::BinaryOperator(operator, lhs, rhs) => {
            put_atom(rhs, out);
            put(out, operator.clone());
            put_atom(lhs, out);
        },
        ExpressionNode::Block(statements) => {
            assert(decreases_to!(*e => e->Block_0));
            put_block(statements, out);
        },
        ExpressionNode::If(t, condition, action, alternate) => {
            match alternate {
                Some(block) => {
                    assert(decreases_to!(*e => e->If_3));
                    assert(decreases_to!(e->If_3 => e->If_3->Some_0));
                    assert(decreases_to!(e->If_3->Some_0 => e->If_3->Some_0.statements));
                    put_block(&block.statements, out);
                    put_punctuation(out, TokenType::Else);
                },
                None => {},
            }
            assert(decreases_to!(*e => e->If_2));
            assert(decreases_to!(e->If_2 => e->If_2.statements));
            put_block(&action.statements, out);
            put_atom(condition, out);
            put(out, t.clone());
        },
        ExpressionNode::Function(t, params, body) => {
            assert(decreases_to!(*e => e->Function_2));
            assert(decreases_to!(e->Function_2 => e->Function_2.statements));
            put_block(&body.statements, out);
            put_punctuation(out, TokenType::Rparen);
            put_params(params, out);
            put_punctuation(out, TokenType::Lparen);
            put(out, t.clone());
        },
        ExpressionNode::FunctionCall(site, function, args) => {
            put_punctuation(out, TokenType::Rparen);
            assert(decreases_to!(*e => e->FunctionCall_2));
            put_arguments(args, out);
            put(out, site.clone());
            put_atom(function, out);
        },
    }
}

/// Puts the tokens of an expression in parentheses before the tokens of
/// `out`.
fn put_atom(e: &ExpressionNode, out: &mut Vec<Token>)
    ensures
        backwards(final(out)@) == print_atom(e@, backwards(old(out)@)),
    decreases e, 1nat,
{
    put_punctuation(out, TokenType::Rparen);
    put_expression(e, out);
    put_punctuation(out, TokenType::Lparen);
}

/// Puts the tokens of a block before the tokens of `out`.
fn put_block(statements: &Vec<StatementNode>, out: &mut Vec<Token>)
    ensures
        backwards(final(out)@) == print_block(view_statements(statements@), backwards(old(out)@)),
    decreases statements, statements.len() + 1,
{
    put_punctuation(out, TokenType::Rbrace);
    put_statements(statements, out);
    put_punctuation(out, TokenType::Lbrace);
}

/// Puts the tokens of a list of statements before the tokens of `out`.
fn put_statements(statements: &Vec<StatementNode>, out: &mut Vec<Token>)
    ensures
        backwards(final(out)@) == print_statements(
            view_statements(statements@),
            0,
            backwards(old(out)@),
        ),
    decreases statements, statements.len(),
{
    let ghost all = view_statements(statements@);
    let ghost rest = backwards(out@);
    let mut i: usize = statements.len();
    while i > 0
        invariant
            i <= statements.len(),
            all == view_statements(statements@),
            backwards(out@) == print_statements(all, i as nat, rest),
        decreases i,
    {
        i -= 1;
        assert(decreases_to!(statements => statements[i as int]));
        put_statement(&statements[i], out);
    }
}

/// Puts the tokens of a statement before the tokens of `out`.
fn put_statement(s: &StatementNode, out: &mut Vec<Token>)
    ensures
        backwards(final(out)@) == print_statement(s@, backwards(old(out)@)),
    decreases s, 0nat,
{
    match s {
        StatementNode::Let(t, ident, e) => {
            put_punctuation(out, TokenType::Semicolon);
            put_atom(e, out);
            put_punctuation(out, TokenType::Assign);
            put(out, ident.0.clone());
            put(out, t.clone());
        },
        StatementNode::Return(t, e) => {
            put_punctuation(out, TokenType::Semicolon);
            put_atom(e, out);
            put(out, t.clone());
        },
        StatementNode::Expression(e) => {
            put_punctuation(out, TokenType::Semicolon);
            put_atom(e, out);
        },
    }
}

/// Puts the parameters of a function before the tokens of `out`.
fn put_params(params: &Vec<Ident>, out: &mut Vec<Token>)
    ensures
        backwards(final(out)@) == print_params(view_idents(params@), 0, backwards(old(out)@)),
{
    let ghost all = view_idents(params@);
    let ghost rest = backwards(out@);
    let mut i: usize = params.len();
    while i > 0
        invariant
            i <= params.len(),
            all == view_idents(params@),
            backwards(out@) == print_params(all, i as nat, rest),
        decreases i,
    {
        i -= 1;
        put_punctuation(out, TokenType::Comma);
        put(out, params[i].0.clone());
    }
}

/// Puts the arguments of a call before the tokens of `out`.
fn put_arguments(args: &Vec<ExpressionNode>, out: &mut Vec<Token>)
    ensures
        backwards(final(out)@) == print_arguments(
            view_expressions(args@),
            0,
            backwards(old(out)@),
        ),
    decreases args, args.len(),
{
    let ghost all = view_expressions(args@);
    let ghost rest = backwards(out@);
    let mut i: usize = args.len();
    while i > 0
        invariant
            i <= args.len(),
            all == view_expressions(args@),
            backwards(out@) == print_arguments(all, i as nat, rest),
        decreases i,
    {
        i -= 1;
        put_punctuation(out, TokenType::Comma);
        assert(decreases_to!(args => args[i as int]));
        put_atom(&args[i], out);
    }
}

/// The tokens that spell a program.
pub fn print(program: &Program) -> (r: Vec<Token>)
    ensures
        view_tokens(r@) == print_program(program@),
{
    let mut out: Vec<Token> = Vec::new();
    assert(backwards(out@) =~= Seq::<TokenView>::empty());
    put_statements(&program.statements, &mut out);
    let r = reversed(out);
    assert(view_tokens(r@) =~= backwards(out@));
    r
}

} // verus!
