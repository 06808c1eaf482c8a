//! How binary operators group: the one that binds more tightly first, and
//! of two that bind alike the left one first.

use vstd::prelude::*;
use crate::ast::ExprView;
use crate::grammar::{
    first, parse_expression, parse_infix, parse_prefix, precedence, right_precedence,
    ParseErrorView,
};
use crate::printer::cons;
use crate::roundtrip::{
    lemma_cons, lemma_expression_from_prefix, lemma_expression_is_prefix, lemma_infix_binary,
    lemma_infix_stops, stops,
};
use crate::token::{TokenKind, TokenView};
use crate::wellformed::is_binary_operator;

verus! {

/// Whether a token is a name or a literal.
pub open spec fn is_leaf(t: TokenView) -> bool {
    t.kind is Ident || t.kind is Int || t.kind is True || t.kind is False
}

/// The expression that a name or a literal is.
pub open spec fn leaf(t: TokenView) -> ExprView {
    match t.kind {
        TokenKind::Ident(_) => ExprView::Ident(t),
        TokenKind::Int(_) => ExprView::Int(t),
        _ => ExprView::Bool(t),
    }
}

/// A name or a literal is a prefix term.
pub proof fn lemma_prefix_leaf(t: TokenView, rest: Seq<TokenView>)
    requires
        is_leaf(t),
    ensures
        parse_prefix(cons(t, rest)) == Ok::<(ExprView, Seq<TokenView>), ParseErrorView>(
            (leaf(t), rest),
        ),
{
    lemma_cons(t, rest);
}

/// Of two binary operators in a row the one that binds more tightly takes
/// the operand between them, and if they bind alike the left one does:
/// `a - b - c` is `(a - b) - c`, `a + b * c` is `a + (b * c)`, and
/// `a * b + c` is `(a * b) + c`.
pub proof fn theorem_operators_group(
    a: TokenView,
    left: TokenView,
    b: TokenView,
    right: TokenView,
    c: TokenView,
    rest: Seq<TokenView>,
)
    requires
        is_leaf(a),
        is_leaf(b),
        is_leaf(c),
        is_binary_operator(left.kind),
        is_binary_operator(right.kind),
        stops(rest, 0),
    ensures
        parse_expression(cons(a, cons(left, cons(b, cons(right, cons(c, rest))))), 0) == Ok::<
            (ExprView, Seq<TokenView>),
            ParseErrorView,
        >(
            (
                if precedence(Some(left)) >= precedence(Some(right)) {
                    ExprView::Binary(
                        right,
                        Box::new(ExprView::Binary(left, Box::new(leaf(a)), Box::new(leaf(b)))),
                        Box::new(leaf(c)),
                    )
                } else {
                    ExprView::Binary(
                        left,
                        Box::new(leaf(a)),
                        Box::new(ExprView::Binary(right, Box::new(leaf(b)), Box::new(leaf(c)))),
                    )
                },
                rest,
            ),
        ),
{
    let from_c = cons(c, rest);
    let from_right = cons(right, from_c);
    let from_b = cons(b, from_right);
    let from_left = cons(left, from_b);
    let all = cons(a, from_left);
    lemma_cons(c, rest);
    lemma_cons(right, from_c);
    lemma_cons(b, from_right);
    lemma_cons(left, from_b);
    lemma_cons(a, from_left);
    lemma_prefix_leaf(a, from_left);
    lemma_prefix_leaf(b, from_right);
    lemma_prefix_leaf(c, rest);
    lemma_expression_from_prefix(all, 0, leaf(a), from_left);
    let tight = right_precedence(Some(left));
    if precedence(Some(left)) >= precedence(Some(right)) {
        // The right operand of the left operator ends before the right one.
        lemma_expression_is_prefix(from_b, tight, leaf(b), from_right);
        let inner = ExprView::Binary(left, Box::new(leaf(a)), Box::new(leaf(b)));
        // What follows the left operation is the right operator and `c`.
        lemma_expression_is_prefix(from_c, right_precedence(Some(right)), leaf(c), rest);
        lemma_infix_binary(inner, from_right, 0, leaf(c), rest);
        assert(parse_infix(leaf(a), from_left, 0) == parse_infix(inner, from_right, 0));
    } else {
        // The right operand of the left operator takes the right operation.
        lemma_expression_is_prefix(from_c, right_precedence(Some(right)), leaf(c), rest);
        lemma_infix_binary(leaf(b), from_right, tight, leaf(c), rest);
        lemma_expression_from_prefix(from_b, tight, leaf(b), from_right);
        let inner = ExprView::Binary(right, Box::new(leaf(b)), Box::new(leaf(c)));
        lemma_infix_binary(leaf(a), from_left, 0, inner, rest);
    }
}

} // verus!
