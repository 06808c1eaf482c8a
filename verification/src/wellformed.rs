//! Well formed trees: every node holds the token that its form asks for.
//! What the parser builds is well formed.

use vstd::prelude::*;
use crate::ast::{ExprView, StmtView};
use crate::grammar::{
    any_ident, mismatch, parse_arg_list, parse_block, parse_block_statements,
    parse_call_arg_list, parse_expression, parse_expression_statement, parse_function,
    parse_if_else, parse_infix, parse_let_statement, parse_params, parse_prefix,
    parse_program, parse_return_statement, parse_statement, parse_statements, precedence,
    right_precedence,
    first, ParseErrorView,
};
use crate::token::{TokenKind, TokenView};

verus! {

/// Whether a token is a prefix operator.
pub open spec fn is_prefix_operator(kind: TokenKind) -> bool {
    kind is Plus || kind is Minus || kind is Bang
}

/// Whether a token is a binary operator.
pub open spec fn is_binary_operator(kind: TokenKind) -> bool {
    kind is Plus || kind is Minus || kind is Asterisk || kind is Slash || kind is Eq
        || kind is NotEq || kind is GT || kind is LT
}

/// Whether every node of an expression holds the token that its form
/// asks for: a name an identifier, an operator node an operator, an `if`
/// the keyword, and so on.
pub open spec fn well_formed_expression(e: ExprView) -> bool
    decreases e, 0nat,
{
    match e {
        ExprView::Ident(t) => t.kind is Ident,
        ExprView::Int(t) => t.kind is Int,
        ExprView::Bool(t) => t.kind is True || t.kind is False,
        ExprView::Unary(operator, operand) => is_prefix_operator(operator.kind)
            && well_formed_expression(*operand),
        ExprView::Binary(operator, lhs, rhs) => is_binary_operator(operator.kind)
            && well_formed_expression(*lhs) && well_formed_expression(*rhs),
        ExprView::Block(statements) => well_formed_statements(statements, 0),
        ExprView::If(t, condition, action, alternate) => t.kind is If && well_formed_expression(
            *condition,
        ) && well_formed_statements(action, 0) && match alternate {
            Some(statements) => well_formed_statements(statements, 0),
            None => true,
        },
        ExprView::Function(t, params, body) => t.kind is Function && well_formed_params(params)
            && well_formed_statements(body, 0),
        ExprView::Call(site, function, args) => site.kind is Lparen && well_formed_expression(
            *function,
        ) && well_formed_expressions(args, 0),
    }
}

/// Whether all parameters are identifiers.
pub open spec fn well_formed_params(params: Seq<TokenView>) -> bool {
    forall|i: int| 0 <= i < params.len() ==> (#[trigger] params[i]).kind is Ident
}

/// Whether a statement is well formed.
pub open spec fn well_formed_statement(s: StmtView) -> bool
    decreases s, 0nat,
{
    match s {
        StmtView::Let(t, ident, e) => t.kind is Let && ident.kind is Ident
            && well_formed_expression(e),
        StmtView::Return(t, e) => t.kind is Return && well_formed_expression(e),
        StmtView::Expression(e) => well_formed_expression(e),
    }
}

/// Whether the statements from offset `from` on are well formed.
pub open spec fn well_formed_statements(statements: Seq<StmtView>, from: nat) -> bool
    decreases statements, statements.len() - from,
{
    from >= statements.len() || (well_formed_statement(statements[from as int])
        && well_formed_statements(statements, from + 1))
}

/// Whether the expressions from offset `from` on are well formed.
pub open spec fn well_formed_expressions(args: Seq<ExprView>, from: nat) -> bool
    decreases args, args.len() - from,
{
    from >= args.len() || (well_formed_expression(args[from as int]) && well_formed_expressions(
        args,
        from + 1,
    ))
}

/// Whether every statement of a list is well formed.
pub open spec fn all_statements_well_formed(statements: Seq<StmtView>) -> bool {
    forall|i: int| 0 <= i < statements.len() ==> well_formed_statement(#[trigger] statements[i])
}

/// Whether every expression of a list is well formed.
pub open spec fn all_expressions_well_formed(args: Seq<ExprView>) -> bool {
    forall|i: int| 0 <= i < args.len() ==> well_formed_expression(#[trigger] args[i])
}

/// A list of well formed statements is well formed from any offset on.
pub proof fn lemma_statements_from(statements: Seq<StmtView>, from: nat)
    requires
        all_statements_well_formed(statements),
    ensures
        well_formed_statements(statements, from),
    decreases statements.len() - from,
{
    if from < statements.len() {
        lemma_statements_from(statements, from + 1);
    }
}

/// A list of well formed expressions is well formed from any offset on.
pub proof fn lemma_expressions_from(args: Seq<ExprView>, from: nat)
    requires
        all_expressions_well_formed(args),
    ensures
        well_formed_expressions(args, from),
    decreases args.len() - from,
{
    if from < args.len() {
        lemma_expressions_from(args, from + 1);
    }
}

/// The parameters that are parsed are identifiers.
pub proof fn lemma_params_well_formed(
    ts: Seq<TokenView>,
    pending: Option<ParseErrorView>,
    acc: Seq<TokenView>,
)
    requires
        well_formed_params(acc),
    ensures
        parse_params(ts, pending, acc) is Ok ==> well_formed_params(
            parse_params(ts, pending, acc)->Ok_0.0,
        ),
    decreases ts.len(),
{
    if mismatch(ts, TokenKind::Rparen) is None {
    } else if pending is Some {
    } else if mismatch(ts, any_ident()) is None {
        let after = ts.drop_first();
        let comma = mismatch(after, TokenKind::Comma);
        let next = if comma is None {
            after.drop_first()
        } else {
            after
        };
        assert(well_formed_params(acc.push(ts[0])));
        lemma_params_well_formed(next, comma, acc.push(ts[0]));
    }
}

/// The expression that is parsed is well formed.
pub proof fn lemma_expression_well_formed(ts: Seq<TokenView>, prec: int)
    requires
        prec >= 0,
    ensures
        parse_expression(ts, prec) is Ok ==> well_formed_expression(
            parse_expression(ts, prec)->Ok_0.0,
        ),
    decreases ts.len(), 3nat,
{
    if ts.len() > 0 {
        lemma_prefix_well_formed(ts);
        match parse_prefix(ts) {
            Ok((left, after)) => {
                if after.len() < ts.len() {
                    lemma_infix_well_formed(left, after, prec);
                }
            },
            Err(_) => {},
        }
    }
}

/// The prefix term that is parsed is well formed.
pub proof fn lemma_prefix_well_formed(ts: Seq<TokenView>)
    ensures
        parse_prefix(ts) is Ok ==> well_formed_expression(parse_prefix(ts)->Ok_0.0),
    decreases ts.len(), 2nat,
{
    if ts.len() > 0 {
        match ts[0].kind {
            TokenKind::Lparen => {
                lemma_expression_well_formed(ts.drop_first(), 0);
            },
            TokenKind::Plus | TokenKind::Minus | TokenKind::Bang => {
                lemma_expression_well_formed(ts.drop_first(), 100);
            },
            TokenKind::Lbrace => {
                lemma_block_well_formed(ts);
                if parse_block(ts) is Ok {
                    lemma_statements_from(parse_block(ts)->Ok_0.0, 0);
                }
            },
            TokenKind::If => {
                lemma_if_well_formed(ts);
            },
            TokenKind::Function => {
                lemma_function_well_formed(ts);
            },
            _ => {},
        }
    }
}

/// What is parsed after a well formed prefix term is well formed.
pub proof fn lemma_infix_well_formed(left: ExprView, ts: Seq<TokenView>, prec: int)
    requires
        well_formed_expression(left),
        prec >= 0,
    ensures
        parse_infix(left, ts, prec) is Ok ==> well_formed_expression(
            parse_infix(left, ts, prec)->Ok_0.0,
        ),
    decreases ts.len(), 0nat,
{
    if ts.len() > 0 && prec <= precedence(first(ts)) {
        if ts[0].kind is Lparen {
            lemma_arguments_well_formed(ts.drop_first(), None, Seq::empty());
            match parse_call_arg_list(ts.drop_first(), None, Seq::empty()) {
                Ok((args, after)) => {
                    if after.len() < ts.len() {
                        lemma_expressions_from(args, 0);
                        lemma_infix_well_formed(
                            ExprView::Call(ts[0], Box::new(left), args),
                            after,
                            prec,
                        );
                    }
                },
                Err(_) => {},
            }
        } else {
            lemma_expression_well_formed(ts.drop_first(), right_precedence(first(ts)));
            match parse_expression(ts.drop_first(), right_precedence(first(ts))) {
                Ok((right, after)) => {
                    if after.len() < ts.len() {
                        assert(is_binary_operator(ts[0].kind));
                        lemma_infix_well_formed(
                            ExprView::Binary(ts[0], Box::new(left), Box::new(right)),
                            after,
                            prec,
                        );
                    }
                },
                Err(_) => {},
            }
        }
    }
}

/// The arguments that are parsed are well formed.
pub proof fn lemma_arguments_well_formed(
    ts: Seq<TokenView>,
    pending: Option<ParseErrorView>,
    acc: Seq<ExprView>,
)
    requires
        all_expressions_well_formed(acc),
    ensures
        parse_call_arg_list(ts, pending, acc) is Ok ==> all_expressions_well_formed(
            parse_call_arg_list(ts, pending, acc)->Ok_0.0,
        ),
    decreases ts.len(), 5nat,
{
    if mismatch(ts, TokenKind::Rparen) is None {
    } else if pending is Some {
    } else {
        lemma_expression_well_formed(ts, 0);
        match parse_expression(ts, 0) {
            Ok((arg, after)) => {
                if after.len() < ts.len() {
                    let comma = mismatch(after, TokenKind::Comma);
                    let next = if comma is None {
                        after.drop_first()
                    } else {
                        after
                    };
                    assert(all_expressions_well_formed(acc.push(arg)));
                    lemma_arguments_well_formed(next, comma, acc.push(arg));
                }
            },
            Err(_) => {},
        }
    }
}

/// The block that is parsed is well formed.
pub proof fn lemma_block_well_formed(ts: Seq<TokenView>)
    ensures
        parse_block(ts) is Ok ==> all_statements_well_formed(parse_block(ts)->Ok_0.0),
    decreases ts.len(), 1nat,
{
    if mismatch(ts, TokenKind::Lbrace) is None {
        lemma_block_statements_well_formed(ts.drop_first(), Seq::empty());
    }
}

/// The statements of a block that are parsed are well formed.
pub proof fn lemma_block_statements_well_formed(ts: Seq<TokenView>, acc: Seq<StmtView>)
    requires
        all_statements_well_formed(acc),
    ensures
        parse_block_statements(ts, acc) is Ok ==> all_statements_well_formed(
            parse_block_statements(ts, acc)->Ok_0.0,
        ),
    decreases ts.len(), 6nat,
{
    if mismatch(ts, TokenKind::Rbrace) is None {
    } else {
        lemma_statement_well_formed(ts);
        match parse_statement(ts) {
            Ok((statement, after)) => {
                if after.len() < ts.len() {
                    assert(all_statements_well_formed(acc.push(statement)));
                    lemma_block_statements_well_formed(after, acc.push(statement));
                }
            },
            Err(_) => {},
        }
    }
}

/// The `if` that is parsed is well formed.
pub proof fn lemma_if_well_formed(ts: Seq<TokenView>)
    ensures
        parse_if_else(ts) is Ok ==> well_formed_expression(parse_if_else(ts)->Ok_0.0),
    decreases ts.len(), 1nat,
{
    if mismatch(ts, TokenKind::If) is None {
        lemma_expression_well_formed(ts.drop_first(), 0);
        match parse_expression(ts.drop_first(), 0) {
            Ok((condition, after)) => {
                if after.len() < ts.len() {
                    lemma_block_well_formed(after);
                    match parse_block(after) {
                        Ok((action, after_action)) => {
                            lemma_statements_from(action, 0);
                            if mismatch(after_action, TokenKind::Else) is None
                                && after_action.len() < ts.len() {
                                lemma_block_well_formed(after_action.drop_first());
                                match parse_block(after_action.drop_first()) {
                                    Ok((alternate, _)) => {
                                        lemma_statements_from(alternate, 0);
                                    },
                                    Err(_) => {},
                                }
                            }
                        },
                        Err(_) => {},
                    }
                }
            },
            Err(_) => {},
        }
    }
}

/// The function literal that is parsed is well formed.
pub proof fn lemma_function_well_formed(ts: Seq<TokenView>)
    ensures
        parse_function(ts) is Ok ==> well_formed_expression(parse_function(ts)->Ok_0.0),
    decreases ts.len(), 1nat,
{
    if mismatch(ts, TokenKind::Function) is None {
        let after_keyword = ts.drop_first();
        if mismatch(after_keyword, TokenKind::Lparen) is None {
            lemma_params_well_formed(after_keyword.drop_first(), None, Seq::empty());
        }
        match parse_arg_list(after_keyword) {
            Ok((params, after)) => {
                if after.len() < ts.len() {
                    lemma_block_well_formed(after);
                    match parse_block(after) {
                        Ok((body, _)) => {
                            lemma_statements_from(body, 0);
                        },
                        Err(_) => {},
                    }
                }
            },
            Err(_) => {},
        }
    }
}

/// The statement that is parsed is well formed.
pub proof fn lemma_statement_well_formed(ts: Seq<TokenView>)
    ensures
        parse_statement(ts) is Ok ==> well_formed_statement(parse_statement(ts)->Ok_0.0),
    decreases ts.len(), 5nat,
{
    if mismatch(ts, TokenKind::Let) is None {
        lemma_let_well_formed(ts);
    } else if mismatch(ts, TokenKind::Return) is None {
        lemma_return_well_formed(ts);
    } else {
        lemma_expression_statement_well_formed(ts);
    }
}

/// The `let` that is parsed is well formed.
pub proof fn lemma_let_well_formed(ts: Seq<TokenView>)
    ensures
        parse_let_statement(ts) is Ok ==> well_formed_statement(
            parse_let_statement(ts)->Ok_0.0,
        ),
    decreases ts.len(), 1nat,
{
    if mismatch(ts, TokenKind::Let) is None && mismatch(ts.drop_first(), any_ident()) is None
        && mismatch(ts.drop_first().drop_first(), TokenKind::Assign) is None {
        assert(ts.drop_first()[0] == ts[1]);
        lemma_expression_well_formed(ts.drop_first().drop_first().drop_first(), 0);
    }
}

/// The `return` that is parsed is well formed.
pub proof fn lemma_return_well_formed(ts: Seq<TokenView>)
    ensures
        parse_return_statement(ts) is Ok ==> well_formed_statement(
            parse_return_statement(ts)->Ok_0.0,
        ),
    decreases ts.len(), 1nat,
{
    if mismatch(ts, TokenKind::Return) is None {
        lemma_expression_well_formed(ts.drop_first(), 0);
    }
}

/// The expression statement that is parsed is well formed.
pub proof fn lemma_expression_statement_well_formed(ts: Seq<TokenView>)
    ensures
        parse_expression_statement(ts) is Ok ==> well_formed_statement(
            parse_expression_statement(ts)->Ok_0.0,
        ),
    decreases ts.len(), 4nat,
{
    lemma_expression_well_formed(ts, 0);
}

/// The statements that are parsed to the end of the tokens are well
/// formed.
pub proof fn lemma_statements_well_formed(ts: Seq<TokenView>, acc: Seq<StmtView>)
    requires
        all_statements_well_formed(acc),
    ensures
        parse_statements(ts, acc) is Ok ==> all_statements_well_formed(
            parse_statements(ts, acc)->Ok_0,
        ),
    decreases ts.len(),
{
    if ts.len() > 0 {
        lemma_statement_well_formed(ts);
        match parse_statement(ts) {
            Ok((statement, after)) => {
                if after.len() < ts.len() {
                    assert(all_statements_well_formed(acc.push(statement)));
                    lemma_statements_well_formed(after, acc.push(statement));
                }
            },
            Err(_) => {},
        }
    }
}

/// The program that is parsed is well formed.
pub proof fn theorem_parsed_program_is_well_formed(ts: Seq<TokenView>)
    ensures
        parse_program(ts) is Ok ==> well_formed_statements(parse_program(ts)->Ok_0, 0),
{
    lemma_statements_well_formed(ts, Seq::empty());
    if parse_program(ts) is Ok {
        lemma_statements_from(parse_program(ts)->Ok_0, 0);
    }
}

} // verus!
