//! The grammar of the language, as functions from a sequence of tokens to the
//! tree that it spells and the tokens that are left.
//!
//! A statement is a `let`, a `return` or an expression, with an optional
//! semicolon after it. An expression is one prefix term followed by binary
//! operators and calls, as long as they bind at least as tightly as the
//! caller asks. Binary operators are left-associative.

use vstd::prelude::*;
use crate::ast::{ExprView, StmtView};
use crate::token::{TokenKind, TokenView};

verus! {

/// Why a sequence of tokens is no program: what was expected, and the token
/// that stood there, or `None` at the end of the input.
pub ghost struct ParseErrorView {
    pub expected: Seq<char>,
    pub found: Option<TokenView>,
}

/// What parsing yields: a value and the tokens after it, or an error.
pub type Parsed<T> = Result<(T, Seq<TokenView>), ParseErrorView>;

/// The first token, if there is one.
pub open spec fn first(ts: Seq<TokenView>) -> Option<TokenView> {
    if ts.len() > 0 {
        Some(ts[0])
    } else {
        None
    }
}

/// The tokens after the first; nothing is after no token.
pub open spec fn rest(ts: Seq<TokenView>) -> Seq<TokenView> {
    if ts.len() > 0 {
        ts.drop_first()
    } else {
        ts
    }
}

/// `None` if the first token is of the expected variant, else the error that
/// says so.
pub open spec fn mismatch(ts: Seq<TokenView>, expected: TokenKind) -> Option<ParseErrorView> {
    if ts.len() > 0 && ts[0].kind.same_variant(expected) {
        None
    } else {
        Some(ParseErrorView { expected: expected.describe(), found: first(ts) })
    }
}

/// The kind that stands for any identifier where one is expected.
pub open spec fn any_ident() -> TokenKind {
    TokenKind::Ident(Seq::empty())
}

/// How tightly a token binds what stands on its two sides. Equality binds
/// least, then the comparisons, the additive and the multiplicative
/// operators, and the parenthesis of a call binds most. Any other token binds
/// nothing, and ends an expression.
pub open spec fn precedence(t: Option<TokenView>) -> int {
    match t {
        Some(token) => match token.kind {
            TokenKind::Eq => 10,
            TokenKind::NotEq => 10,
            TokenKind::GT => 20,
            TokenKind::LT => 20,
            TokenKind::Plus => 30,
            TokenKind::Minus => 30,
            TokenKind::Asterisk => 40,
            TokenKind::Slash => 40,
            TokenKind::Lparen => 110,
            TokenKind::Rparen => -1,
            _ => -100,
        },
        None => -100,
    }
}

/// The precedence with which the right operand of a binary operator is
/// parsed: just above the operator's own.
pub open spec fn right_precedence(t: Option<TokenView>) -> int {
    precedence(t) + 1
}

/// The precedence with which the operand of a prefix operator is parsed.
pub open spec fn prefix_precedence() -> int {
    100
}

/// The error at the end of the input, where an expression should start.
pub open spec fn missing_expression() -> ParseErrorView {
    ParseErrorView { expected: "Any Expression"@, found: None }
}

/// The error at a token that starts no expression.
pub open spec fn no_prefix(t: TokenView) -> ParseErrorView {
    ParseErrorView { expected: "Ident|Int|UnaryOperator|(|{|if|fn"@, found: Some(t) }
}

/// The error of a parse that consumed nothing where it had to. No sequence
/// of tokens gives it: see `lemma_parse_consumes`.
pub open spec fn stalled() -> ParseErrorView {
    ParseErrorView { expected: Seq::empty(), found: None }
}

/// An expression whose operators bind at least as tightly as `prec`.
pub open spec fn parse_expression(ts: Seq<TokenView>, prec: int) -> Parsed<ExprView>
    decreases ts.len(), 3int,
{
    if ts.len() == 0 {
        Err(missing_expression())
    } else {
        match parse_prefix(ts) {
            Err(e) => Err(e),
            Ok((left, after)) => if after.len() < ts.len() {
                parse_infix(left, after, prec)
            } else {
                Err(stalled())
            },
        }
    }
}

/// A prefix term: a name, a literal, an expression in parentheses, a prefix
/// operator and its operand, a block, an `if` or a function literal.
pub open spec fn parse_prefix(ts: Seq<TokenView>) -> Parsed<ExprView>
    decreases ts.len(), 2int,
{
    if ts.len() == 0 {
        Err(missing_expression())
    } else {
        match ts[0].kind {
            TokenKind::Ident(_) => Ok((ExprView::Ident(ts[0]), ts.drop_first())),
            TokenKind::Int(_) => Ok((ExprView::Int(ts[0]), ts.drop_first())),
            TokenKind::True => Ok((ExprView::Bool(ts[0]), ts.drop_first())),
            TokenKind::False => Ok((ExprView::Bool(ts[0]), ts.drop_first())),
            TokenKind::Lparen => match parse_expression(ts.drop_first(), 0) {
                Err(e) => Err(e),
                Ok((inner, after)) => match mismatch(after, TokenKind::Rparen) {
                    Some(e) => Err(e),
                    None => Ok((inner, after.drop_first())),
                },
            },
            TokenKind::Plus | TokenKind::Minus | TokenKind::Bang => match parse_expression(
                ts.drop_first(),
                prefix_precedence(),
            ) {
                Err(e) => Err(e),
                Ok((operand, after)) => Ok((ExprView::Unary(ts[0], Box::new(operand)), after)),
            },
            TokenKind::Lbrace => match parse_block(ts) {
                Err(e) => Err(e),
                Ok((statements, after)) => Ok((ExprView::Block(statements), after)),
            },
            TokenKind::If => parse_if_else(ts),
            TokenKind::Function => parse_function(ts),
            _ => Err(no_prefix(ts[0])),
        }
    }
}

/// What follows a prefix term `left`: as long as the next token binds at
/// least as tightly as `prec`, it is the parenthesis of a call of `left`, or
/// a binary operator whose right operand takes only what binds more tightly
/// than the operator itself, so that operators of one precedence group to
/// the left.
pub open spec fn parse_infix(left: ExprView, ts: Seq<TokenView>, prec: int) -> Parsed<ExprView>
    decreases ts.len(), 0int,
{
    if ts.len() > 0 && prec <= precedence(first(ts)) {
        if ts[0].kind is Lparen {
            match parse_call_arg_list(ts.drop_first(), None, Seq::empty()) {
                Err(e) => Err(e),
                Ok((args, after)) => if after.len() < ts.len() {
                    parse_infix(ExprView::Call(ts[0], Box::new(left), args), after, prec)
                } else {
                    Err(stalled())
                },
            }
        } else {
            match parse_expression(ts.drop_first(), right_precedence(first(ts))) {
                Err(e) => Err(e),
                Ok((right, after)) => if after.len() < ts.len() {
                    parse_infix(
                        ExprView::Binary(ts[0], Box::new(left), Box::new(right)),
                        after,
                        prec,
                    )
                } else {
                    Err(stalled())
                },
            }
        }
    } else {
        Ok((left, ts))
    }
}

/// The arguments of a call after its opening parenthesis, up to and with the
/// closing one. `acc` holds the arguments before `ts`; `pending` is the error
/// of the comma that was missing after the last of them, which counts only
/// if another argument follows. A comma may follow the last argument.
pub open spec fn parse_call_arg_list(
    ts: Seq<TokenView>,
    pending: Option<ParseErrorView>,
    acc: Seq<ExprView>,
) -> Parsed<Seq<ExprView>>
    decreases ts.len(), 5int,
{
    if mismatch(ts, TokenKind::Rparen) is None {
        Ok((acc, ts.drop_first()))
    } else if pending is Some {
        Err(pending->Some_0)
    } else {
        match parse_expression(ts, 0) {
            Err(e) => Err(e),
            Ok((arg, after)) => if after.len() < ts.len() {
                let comma = mismatch(after, TokenKind::Comma);
                parse_call_arg_list(
                    if comma is None {
                        after.drop_first()
                    } else {
                        after
                    },
                    comma,
                    acc.push(arg),
                )
            } else {
                Err(stalled())
            },
        }
    }
}

/// A block: statements between braces.
pub open spec fn parse_block(ts: Seq<TokenView>) -> Parsed<Seq<StmtView>>
    decreases ts.len(), 1int,
{
    match mismatch(ts, TokenKind::Lbrace) {
        Some(e) => Err(e),
        None => parse_block_statements(ts.drop_first(), Seq::empty()),
    }
}

/// The statements of a block after its opening brace, up to and with the
/// closing one. `acc` holds the statements before `ts`.
pub open spec fn parse_block_statements(ts: Seq<TokenView>, acc: Seq<StmtView>) -> Parsed<
    Seq<StmtView>,
>
    decreases ts.len(), 6int,
{
    if mismatch(ts, TokenKind::Rbrace) is None {
        Ok((acc, ts.drop_first()))
    } else {
        match parse_statement(ts) {
            Err(e) => Err(e),
            Ok((statement, after)) => if after.len() < ts.len() {
                parse_block_statements(after, acc.push(statement))
            } else {
                Err(stalled())
            },
        }
    }
}

/// `if`, a condition, a block, and optionally `else` and a second block.
pub open spec fn parse_if_else(ts: Seq<TokenView>) -> Parsed<ExprView>
    decreases ts.len(), 1int,
{
    match mismatch(ts, TokenKind::If) {
        Some(e) => Err(e),
        None => match parse_expression(ts.drop_first(), 0) {
            Err(e) => Err(e),
            Ok((condition, after)) => if after.len() < ts.len() {
                match parse_block(after) {
                    Err(e) => Err(e),
                    Ok((action, after_action)) => if mismatch(after_action, TokenKind::Else)
                        is None && after_action.len() < ts.len() {
                        match parse_block(after_action.drop_first()) {
                            Err(e) => Err(e),
                            Ok((alternate, after_alternate)) => Ok(
                                (
                                    ExprView::If(
                                        ts[0],
                                        Box::new(condition),
                                        action,
                                        Some(alternate),
                                    ),
                                    after_alternate,
                                ),
                            ),
                        }
                    } else {
                        Ok((ExprView::If(ts[0], Box::new(condition), action, None), after_action))
                    },
                }
            } else {
                Err(stalled())
            },
        },
    }
}

/// `fn`, the parameters in parentheses, and the body.
pub open spec fn parse_function(ts: Seq<TokenView>) -> Parsed<ExprView>
    decreases ts.len(), 1int,
{
    match mismatch(ts, TokenKind::Function) {
        Some(e) => Err(e),
        None => match parse_arg_list(ts.drop_first()) {
            Err(e) => Err(e),
            Ok((params, after)) => if after.len() < ts.len() {
                match parse_block(after) {
                    Err(e) => Err(e),
                    Ok((body, after_body)) => Ok(
                        (ExprView::Function(ts[0], params, body), after_body),
                    ),
                }
            } else {
                Err(stalled())
            },
        },
    }
}

/// The parameters of a function literal, with their parentheses.
pub open spec fn parse_arg_list(ts: Seq<TokenView>) -> Parsed<Seq<TokenView>> {
    match mismatch(ts, TokenKind::Lparen) {
        Some(e) => Err(e),
        None => parse_params(ts.drop_first(), None, Seq::empty()),
    }
}

/// The parameters after the opening parenthesis, up to and with the closing
/// one; `acc` and `pending` as for the arguments of a call.
pub open spec fn parse_params(
    ts: Seq<TokenView>,
    pending: Option<ParseErrorView>,
    acc: Seq<TokenView>,
) -> Parsed<Seq<TokenView>>
    decreases ts.len(),
{
    if mismatch(ts, TokenKind::Rparen) is None {
        Ok((acc, ts.drop_first()))
    } else if pending is Some {
        Err(pending->Some_0)
    } else {
        match mismatch(ts, any_ident()) {
            Some(e) => Err(e),
            None => {
                let after = ts.drop_first();
                let comma = mismatch(after, TokenKind::Comma);
                parse_params(
                    if comma is None {
                        after.drop_first()
                    } else {
                        after
                    },
                    comma,
                    acc.push(ts[0]),
                )
            },
        }
    }
}

/// The arguments of a call, with their parentheses.
pub open spec fn parse_call_args(ts: Seq<TokenView>) -> Parsed<Seq<ExprView>> {
    match mismatch(ts, TokenKind::Lparen) {
        Some(e) => Err(e),
        None => parse_call_arg_list(ts.drop_first(), None, Seq::empty()),
    }
}

/// `let`, a name, `=` and an expression.
pub open spec fn parse_let_statement(ts: Seq<TokenView>) -> Parsed<StmtView>
    decreases ts.len(), 1int,
{
    match mismatch(ts, TokenKind::Let) {
        Some(e) => Err(e),
        None => match mismatch(ts.drop_first(), any_ident()) {
            Some(e) => Err(e),
            None => match mismatch(ts.drop_first().drop_first(), TokenKind::Assign) {
                Some(e) => Err(e),
                None => match parse_expression(ts.drop_first().drop_first().drop_first(), 0) {
                    Err(e) => Err(e),
                    Ok((value, after)) => Ok((StmtView::Let(ts[0], ts[1], value), after)),
                },
            },
        },
    }
}

/// `return` and an expression.
pub open spec fn parse_return_statement(ts: Seq<TokenView>) -> Parsed<StmtView>
    decreases ts.len(), 1int,
{
    match mismatch(ts, TokenKind::Return) {
        Some(e) => Err(e),
        None => match parse_expression(ts.drop_first(), 0) {
            Err(e) => Err(e),
            Ok((value, after)) => Ok((StmtView::Return(ts[0], value), after)),
        },
    }
}

/// An expression that stands as a statement.
pub open spec fn parse_expression_statement(ts: Seq<TokenView>) -> Parsed<StmtView>
    decreases ts.len(), 4int,
{
    match parse_expression(ts, 0) {
        Err(e) => Err(e),
        Ok((e, after)) => Ok((StmtView::Expression(e), after)),
    }
}

/// One statement and the semicolon after it, if there is one.
pub open spec fn parse_statement(ts: Seq<TokenView>) -> Parsed<StmtView>
    decreases ts.len(), 5int,
{
    let parsed = if mismatch(ts, TokenKind::Let) is None {
        parse_let_statement(ts)
    } else if mismatch(ts, TokenKind::Return) is None {
        parse_return_statement(ts)
    } else {
        parse_expression_statement(ts)
    };
    match parsed {
        Err(e) => Err(e),
        Ok((statement, after)) => Ok(
            (
                statement,
                if mismatch(after, TokenKind::Semicolon) is None {
                    after.drop_first()
                } else {
                    after
                },
            ),
        ),
    }
}

/// The statements of `ts` to its end, after those of `acc`.
pub open spec fn parse_statements(ts: Seq<TokenView>, acc: Seq<StmtView>) -> Result<
    Seq<StmtView>,
    ParseErrorView,
>
    decreases ts.len(),
{
    if ts.len() == 0 {
        Ok(acc)
    } else {
        match parse_statement(ts) {
            Err(e) => Err(e),
            Ok((statement, after)) => if after.len() < ts.len() {
                parse_statements(after, acc.push(statement))
            } else {
                Err(stalled())
            },
        }
    }
}

/// The program that a sequence of tokens spells: its statements, or the
/// error at the first token that fits none.
pub open spec fn parse_program(ts: Seq<TokenView>) -> Result<Seq<StmtView>, ParseErrorView> {
    parse_statements(ts, Seq::empty())
}

} // verus!
