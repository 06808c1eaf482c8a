//! Parsing moves forward: whatever is parsed takes at least one token, so
//! that no parse ever stalls.

use vstd::prelude::*;
use crate::ast::{ExprView, StmtView};
use crate::grammar::{
    any_ident, first, mismatch, parse_arg_list, parse_block, parse_block_statements,
    parse_call_arg_list, parse_expression, parse_expression_statement, parse_function,
    parse_if_else, parse_infix, parse_let_statement, parse_params, parse_prefix,
    parse_program, parse_return_statement, parse_statement, parse_statements, precedence,
    right_precedence,
    stalled, ParseErrorView,
};
use crate::token::{TokenKind, TokenView};

verus! {

/// Whether a parse, if it succeeded, left fewer than `bound` tokens, and if
/// it failed, did not fail for being stalled.
pub open spec fn advanced<T>(parsed: Result<(T, Seq<TokenView>), ParseErrorView>, bound: int)
    -> bool {
    match parsed {
        Ok((_, after)) => after.len() < bound,
        Err(e) => e != stalled(),
    }
}

/// No expected kind has an empty description.
pub proof fn lemma_mismatch_not_stalled(ts: Seq<TokenView>, expected: TokenKind)
    requires
        expected == TokenKind::Rparen || expected == TokenKind::Lparen || expected
            == TokenKind::Lbrace || expected == TokenKind::Rbrace || expected == TokenKind::If
            || expected == TokenKind::Function || expected == TokenKind::Let || expected
            == TokenKind::Return || expected == TokenKind::Assign || expected
            == TokenKind::Comma || expected == any_ident(),
    ensures
        mismatch(ts, expected) is Some ==> mismatch(ts, expected)->Some_0 != stalled(),
{
    reveal_strlit("Rparen");
    reveal_strlit("Lparen");
    reveal_strlit("Lbrace");
    reveal_strlit("Rbrace");
    reveal_strlit("If");
    reveal_strlit("Function");
    reveal_strlit("Let");
    reveal_strlit("Return");
    reveal_strlit("Assign");
    reveal_strlit("Comma");
    reveal_strlit("Ident(\"");
    assert("Rparen"@.len() == 6);
    assert("Lparen"@.len() == 6);
    assert("Lbrace"@.len() == 6);
    assert("Rbrace"@.len() == 6);
    assert("If"@.len() == 2);
    assert("Function"@.len() == 8);
    assert("Let"@.len() == 3);
    assert("Return"@.len() == 6);
    assert("Assign"@.len() == 6);
    assert("Comma"@.len() == 5);
    assert("Ident(\""@.len() == 7);
    assert(expected.describe().len() > 0);
    assert(stalled().expected.len() == 0);
}

/// The errors at the start of an expression are not that of a stall.
pub proof fn lemma_start_not_stalled(t: TokenView)
    ensures
        crate::grammar::missing_expression() != stalled(),
        crate::grammar::no_prefix(t) != stalled(),
{
    reveal_strlit("Any Expression");
    reveal_strlit("Ident|Int|UnaryOperator|(|{|if|fn");
    assert("Any Expression"@.len() == 14);
    assert("Ident|Int|UnaryOperator|(|{|if|fn"@.len() == 33);
    assert(stalled().expected.len() == 0);
}

/// The parameters of a function take at least their closing parenthesis.
pub proof fn lemma_params_advance(
    ts: Seq<TokenView>,
    pending: Option<ParseErrorView>,
    acc: Seq<TokenView>,
)
    requires
        pending is Some ==> pending->Some_0 != stalled(),
    ensures
        advanced(parse_params(ts, pending, acc), ts.len() as int),
    decreases ts.len(),
{
    lemma_mismatch_not_stalled(ts, any_ident());
    if mismatch(ts, TokenKind::Rparen) is None {
    } else if pending is Some {
    } else if mismatch(ts, any_ident()) is None {
        let after = ts.drop_first();
        let comma = mismatch(after, TokenKind::Comma);
        lemma_mismatch_not_stalled(after, TokenKind::Comma);
        let next = if comma is None {
            after.drop_first()
        } else {
            after
        };
        lemma_params_advance(next, comma, acc.push(ts[0]));
    }
}

/// An expression takes at least one token.
pub proof fn lemma_expression_advances(ts: Seq<TokenView>, prec: int)
    ensures
        advanced(parse_expression(ts, prec), ts.len() as int),
    decreases ts.len(), 3nat,
{
    if ts.len() > 0 {
        lemma_prefix_advances(ts);
        match parse_prefix(ts) {
            Ok((left, after)) => {
                lemma_infix_advances(left, after, prec);
            },
            Err(_) => {},
        }
    } else {
        lemma_start_not_stalled(arbitrary());
    }
}

/// A prefix term takes at least one token.
pub proof fn lemma_prefix_advances(ts: Seq<TokenView>)
    requires
        ts.len() > 0,
    ensures
        advanced(parse_prefix(ts), ts.len() as int),
    decreases ts.len(), 2nat,
{
    lemma_start_not_stalled(ts[0]);
    match ts[0].kind {
        TokenKind::Lparen => {
            lemma_expression_advances(ts.drop_first(), 0);
            match parse_expression(ts.drop_first(), 0) {
                Ok((_, after)) => {
                    lemma_mismatch_not_stalled(after, TokenKind::Rparen);
                },
                Err(_) => {},
            }
        },
        TokenKind::Plus | TokenKind::Minus | TokenKind::Bang => {
            lemma_expression_advances(ts.drop_first(), 100);
        },
        TokenKind::Lbrace => {
            lemma_block_advances(ts);
        },
        TokenKind::If => {
            lemma_if_advances(ts);
        },
        TokenKind::Function => {
            lemma_function_advances(ts);
        },
        _ => {},
    }
}

/// What follows a prefix term gives no token back.
pub proof fn lemma_infix_advances(left: ExprView, ts: Seq<TokenView>, prec: int)
    ensures
        advanced(parse_infix(left, ts, prec), ts.len() as int + 1),
    decreases ts.len(), 0nat,
{
    if ts.len() > 0 && prec <= precedence(first(ts)) {
        if ts[0].kind is Lparen {
            lemma_arguments_advance(ts.drop_first(), None, Seq::empty());
            match parse_call_arg_list(ts.drop_first(), None, Seq::empty()) {
                Ok((args, after)) => {
                    lemma_infix_advances(ExprView::Call(ts[0], Box::new(left), args), after, prec);
                },
                Err(_) => {},
            }
        } else {
            lemma_expression_advances(ts.drop_first(), right_precedence(first(ts)));
            match parse_expression(ts.drop_first(), right_precedence(first(ts))) {
                Ok((right, after)) => {
                    lemma_infix_advances(
                        ExprView::Binary(ts[0], Box::new(left), Box::new(right)),
                        after,
                        prec,
                    );
                },
                Err(_) => {},
            }
        }
    }
}

/// The arguments of a call take at least their closing parenthesis.
pub proof fn lemma_arguments_advance(
    ts: Seq<TokenView>,
    pending: Option<ParseErrorView>,
    acc: Seq<ExprView>,
)
    requires
        pending is Some ==> pending->Some_0 != stalled(),
    ensures
        advanced(parse_call_arg_list(ts, pending, acc), ts.len() as int),
    decreases ts.len(), 5nat,
{
    if mismatch(ts, TokenKind::Rparen) is None {
    } else if pending is Some {
    } else {
        lemma_expression_advances(ts, 0);
        match parse_expression(ts, 0) {
            Ok((arg, after)) => {
                let comma = mismatch(after, TokenKind::Comma);
                lemma_mismatch_not_stalled(after, TokenKind::Comma);
                let next = if comma is None {
                    after.drop_first()
                } else {
                    after
                };
                lemma_arguments_advance(next, comma, acc.push(arg));
            },
            Err(_) => {},
        }
    }
}

/// A block takes at least its braces.
pub proof fn lemma_block_advances(ts: Seq<TokenView>)
    ensures
        advanced(parse_block(ts), ts.len() as int),
    decreases ts.len(), 1nat,
{
    lemma_mismatch_not_stalled(ts, TokenKind::Lbrace);
    if mismatch(ts, TokenKind::Lbrace) is None {
        lemma_block_statements_advance(ts.drop_first(), Seq::empty());
    }
}

/// The statements of a block take at least its closing brace.
pub proof fn lemma_block_statements_advance(ts: Seq<TokenView>, acc: Seq<StmtView>)
    ensures
        advanced(parse_block_statements(ts, acc), ts.len() as int),
    decreases ts.len(), 6nat,
{
    if mismatch(ts, TokenKind::Rbrace) is None {
    } else {
        lemma_statement_advances(ts);
        match parse_statement(ts) {
            Ok((statement, after)) => {
                lemma_block_statements_advance(after, acc.push(statement));
            },
            Err(_) => {},
        }
    }
}

/// An `if` takes at least one token.
pub proof fn lemma_if_advances(ts: Seq<TokenView>)
    ensures
        advanced(parse_if_else(ts), ts.len() as int),
    decreases ts.len(), 1nat,
{
    lemma_mismatch_not_stalled(ts, TokenKind::If);
    if mismatch(ts, TokenKind::If) is None {
        lemma_expression_advances(ts.drop_first(), 0);
        match parse_expression(ts.drop_first(), 0) {
            Ok((condition, after)) => {
                lemma_block_advances(after);
                match parse_block(after) {
                    Ok((action, after_action)) => {
                        if mismatch(after_action, TokenKind::Else) is None {
                            lemma_block_advances(after_action.drop_first());
                        }
                    },
                    Err(_) => {},
                }
            },
            Err(_) => {},
        }
    }
}

/// A function literal takes at least one token.
pub proof fn lemma_function_advances(ts: Seq<TokenView>)
    ensures
        advanced(parse_function(ts), ts.len() as int),
    decreases ts.len(), 1nat,
{
    lemma_mismatch_not_stalled(ts, TokenKind::Function);
    if mismatch(ts, TokenKind::Function) is None {
        let after_keyword = ts.drop_first();
        lemma_mismatch_not_stalled(after_keyword, TokenKind::Lparen);
        if mismatch(after_keyword, TokenKind::Lparen) is None {
            lemma_params_advance(after_keyword.drop_first(), None, Seq::empty());
        }
        match parse_arg_list(after_keyword) {
            Ok((params, after)) => {
                lemma_block_advances(after);
            },
            Err(_) => {},
        }
    }
}

/// A statement takes at least one token.
pub proof fn lemma_statement_advances(ts: Seq<TokenView>)
    ensures
        advanced(parse_statement(ts), ts.len() as int),
    decreases ts.len(), 5nat,
{
    if mismatch(ts, TokenKind::Let) is None {
        lemma_let_advances(ts);
    } else if mismatch(ts, TokenKind::Return) is None {
        lemma_return_advances(ts);
    } else {
        lemma_expression_statement_advances(ts);
    }
}

/// A `let` takes at least one token.
pub proof fn lemma_let_advances(ts: Seq<TokenView>)
    ensures
        advanced(parse_let_statement(ts), ts.len() as int),
    decreases ts.len(), 1nat,
{
    lemma_mismatch_not_stalled(ts, TokenKind::Let);
    if mismatch(ts, TokenKind::Let) is None {
        lemma_mismatch_not_stalled(ts.drop_first(), any_ident());
        if mismatch(ts.drop_first(), any_ident()) is None {
            lemma_mismatch_not_stalled(ts.drop_first().drop_first(), TokenKind::Assign);
            if mismatch(ts.drop_first().drop_first(), TokenKind::Assign) is None {
                lemma_expression_advances(ts.drop_first().drop_first().drop_first(), 0);
            }
        }
    }
}

/// A `return` takes at least one token.
pub proof fn lemma_return_advances(ts: Seq<TokenView>)
    ensures
        advanced(parse_return_statement(ts), ts.len() as int),
    decreases ts.len(), 1nat,
{
    lemma_mismatch_not_stalled(ts, TokenKind::Return);
    if mismatch(ts, TokenKind::Return) is None {
        lemma_expression_advances(ts.drop_first(), 0);
    }
}

/// An expression statement takes at least one token.
pub proof fn lemma_expression_statement_advances(ts: Seq<TokenView>)
    ensures
        advanced(parse_expression_statement(ts), ts.len() as int),
    decreases ts.len(), 4nat,
{
    lemma_expression_advances(ts, 0);
}

/// The statements of a program never stall.
pub proof fn lemma_statements_advance(ts: Seq<TokenView>, acc: Seq<StmtView>)
    ensures
        parse_statements(ts, acc) is Err ==> parse_statements(ts, acc)->Err_0 != stalled(),
    decreases ts.len(),
{
    if ts.len() > 0 {
        lemma_statement_advances(ts);
        match parse_statement(ts) {
            Ok((statement, after)) => {
                lemma_statements_advance(after, acc.push(statement));
            },
            Err(_) => {},
        }
    }
}

/// Parsing never stalls: no sequence of tokens gives the error that stands
/// for a parse that took no token.
pub proof fn lemma_parse_consumes(ts: Seq<TokenView>)
    ensures
        parse_program(ts) is Err ==> parse_program(ts)->Err_0 != stalled(),
{
    lemma_statements_advance(ts, Seq::empty());
}

} // verus!
