//! The parser: from the lexer's tokens to the syntax tree, by recursive
//! descent and precedence climbing. It stops at the first token that does not
//! fit.

use vstd::prelude::*;
use vstd::string::*;
use crate::ast::{
    view_expressions, view_idents, view_statements, Block, ExprView, ExpressionNode, Ident,
    Program, StatementNode, StmtView,
};
use crate::grammar::{
    any_ident, first, mismatch, missing_expression, no_prefix, parse_arg_list, parse_block,
    parse_block_statements, parse_call_arg_list, parse_call_args, parse_expression,
    parse_expression_statement, parse_function, parse_if_else, parse_infix,
    parse_let_statement, parse_params, parse_prefix, parse_program, parse_return_statement,
    parse_statement, parse_statements, precedence, prefix_precedence, rest, ParseErrorView,
};
use crate::lexer::Lexer;
use crate::source::{view_tokens, TokenSource};
use crate::wellformed::{theorem_parsed_program_is_well_formed, well_formed_statements};
use crate::nodes::{
    BinaryOperator, Bool, ExpressionStatement, Function, FunctionCall, If, Int, LetStatement,
    ReturnStatement, UnaryOperator,
};
use crate::token::{view_token_option, Token, TokenKind, TokenType, TokenView};

verus! {

/// Why parsing stopped: what was expected, and the token that stood there,
/// or `None` at the end of the input.
#[derive(Debug, PartialEq, Eq)]
pub struct ParseError {
    pub expected: String,
    pub found: Option<Token>,
}

impl View for ParseError {
    type V = ParseErrorView;

    open spec fn view(&self) -> ParseErrorView {
        ParseErrorView { expected: self.expected@, found: view_token_option(self.found) }
    }
}

/// Whether what a parse function returned, with the tokens it left, is
/// what the grammar gives.
pub open spec fn parsed_as<V>(
    value: Result<V, ParseErrorView>,
    after: Seq<TokenView>,
    expected: Result<(V, Seq<TokenView>), ParseErrorView>,
) -> bool {
    match value {
        Ok(v) => expected == Ok::<(V, Seq<TokenView>), ParseErrorView>((v, after)),
        Err(e) => expected == Err::<(V, Seq<TokenView>), ParseErrorView>(e),
    }
}

/// How tightly the given token binds, or the lowest precedence for no token.
pub fn get_prec_assoc(op: Option<&Token>) -> (r: i8)
    ensures
        r as int == precedence(
            match op {
                Some(token) => Some(token@),
                None => None,
            },
        ),
{
    match op {
        Some(token) => match token.kind {
            TokenType::Plus => 30,
            TokenType::Minus => 30,
            TokenType::Asterisk => 40,
            TokenType::Slash => 40,
            TokenType::Eq => 10,
            TokenType::NotEq => 10,
            TokenType::GT => 20,
            TokenType::LT => 20,
            TokenType::Lparen => 110,
            TokenType::Rparen => -1,
            _ => -100,
        },
        None => -100,
    }
}

/// A parser over the tokens of a source. It looks at two tokens: the
/// current one and the one after it.
#[derive(Debug)]
pub struct Parser {
    source: TokenSource,
    current: Option<Token>,
    peek: Option<Token>,
}

impl Parser {
    /// The invariant of a parser: its source is well formed, and the two
    /// tokens it holds are the next two of the input, so that the second is
    /// missing only at the end and the first only when the second is.
    pub closed spec fn wf(&self) -> bool {
        &&& self.source.wf()
        &&& (self.current is None ==> self.peek is None)
        &&& (self.peek is None ==> self.source.remaining().len() == 0)
    }

    /// The tokens that are not parsed yet, the current one first.
    pub closed spec fn stream(&self) -> Seq<TokenView> {
        match self.current {
            None => Seq::empty(),
            Some(c) => match self.peek {
                None => seq![c@],
                Some(p) => seq![c@, p@] + self.source.remaining(),
            },
        }
    }

    /// A parser at the first token of `lexer`.
    pub fn new(lexer: Lexer) -> (p: Parser)
        requires
            lexer.wf(),
        ensures
            p.wf(),
            p.stream() == lexer.remaining(),
    {
        Self::from_source(TokenSource::from_lexer(lexer))
    }

    /// A parser at the first token of a list.
    pub fn from_tokens(tokens: Vec<Token>) -> (p: Parser)
        ensures
            p.wf(),
            p.stream() == view_tokens(tokens@),
    {
        Self::from_source(TokenSource::from_tokens(tokens))
    }

    /// A parser at the first token of `source`.
    pub fn from_source(source: TokenSource) -> (p: Parser)
        requires
            source.wf(),
        ensures
            p.wf(),
            p.stream() == source.remaining(),
    {
        let mut p = Self { source, current: None, peek: None };
        let first = p.source.next();
        let second = p.source.next();
        p.current = first;
        p.peek = second;
        assert(p.stream() =~= source.remaining());
        p
    }

    /// Moves to the next token and returns the one that was current.
    fn advance_tokens(&mut self) -> (r: Option<Token>)
        requires
            old(self).wf(),
        ensures
            final(self).wf(),
            view_token_option(r) == first(old(self).stream()),
            final(self).stream() == rest(old(self).stream()),
    {
        let next = self.source.next();
        let taken = self.current.take();
        self.current = self.peek.take();
        self.peek = next;
        assert(self.stream() =~= rest(old(self).stream()));
        taken
    }

    /// Whether the current token is of the given variant.
    fn at(&self, expected: &TokenType) -> (r: bool)
        requires
            self.wf(),
        ensures
            r == (mismatch(self.stream(), expected@) is None),
    {
        match &self.current {
            Some(token) => token.kind.same_variant(expected),
            None => false,
        }
    }

    /// `Ok` if the current token is of the given variant, else the error
    /// that names both.
    fn check_token_type(&self, expected: TokenType) -> (r: Result<(), ParseError>)
        requires
            self.wf(),
        ensures
            match r {
                Ok(_) => mismatch(self.stream(), expected@) is None,
                Err(e) => mismatch(self.stream(), expected@) == Some(e@),
            },
    {
        if self.at(&expected) {
            Ok(())
        } else {
            let found = match &self.current {
                Some(token) => Some(token.clone()),
                None => None,
            };
            Err(ParseError { expected: expected.describe(), found })
        }
    }

    /// Takes the current token if it is of the given variant.
    fn take(&mut self, expected: TokenType) -> (r: Result<Token, ParseError>)
        requires
            old(self).wf(),
        ensures
            final(self).wf(),
            match r {
                Ok(token) => {
                    &&& mismatch(old(self).stream(), expected@) is None
                    &&& token@ == old(self).stream()[0]
                    &&& final(self).stream() == old(self).stream().drop_first()
                },
                Err(e) => {
                    &&& mismatch(old(self).stream(), expected@) == Some(e@)
                    &&& final(self).stream() == old(self).stream()
                },
            },
    {
        match self.check_token_type(expected) {
            Err(e) => Err(e),
            Ok(_) => {
                let taken = self.advance_tokens();
                Ok(taken.unwrap())
            },
        }
    }

    /// Passes over the current token if it is of the given variant.
    fn expect(&mut self, expected: TokenType) -> (r: Result<(), ParseError>)
        requires
            old(self).wf(),
        ensures
            final(self).wf(),
            match r {
                Ok(_) => {
                    &&& mismatch(old(self).stream(), expected@) is None
                    &&& final(self).stream() == old(self).stream().drop_first()
                },
                Err(e) => {
                    &&& mismatch(old(self).stream(), expected@) == Some(e@)
                    &&& final(self).stream() == old(self).stream()
                },
            },
    {
        match self.take(expected) {
            Err(e) => Err(e),
            Ok(_) => Ok(()),
        }
    }
    /// The precedence of the current token.
    fn current_precedence(&self) -> (r: i8)
        requires
            self.wf(),
        ensures
            r as int == precedence(first(self.stream())),
    {
        get_prec_assoc(self.current.as_ref())
    }

    /// A copy of the current token.
    fn current_token(&self) -> (r: Token)
        requires
            self.wf(),
            self.stream().len() > 0,
        ensures
            r@ == self.stream()[0],
    {
        match &self.current {
            Some(token) => token.clone(),
            None => {
                assert(false);
                Token::new(TokenType::Eof, (0, 0))
            },
        }
    }

    /// Parses the whole input.
    pub fn parse_program(&mut self) -> (r: Result<Program, ParseError>)
        requires
            old(self).wf(),
        ensures
            final(self).wf(),
            match r {
                Ok(program) => parse_program(old(self).stream()) == Ok::<
                    Seq<StmtView>,
                    ParseErrorView,
                >(program@) && final(self).stream().len() == 0 && well_formed_statements(
                    program@,
                    0,
                ),
                Err(e) => parse_program(old(self).stream()) == Err::<
                    Seq<StmtView>,
                    ParseErrorView,
                >(e@),
            },
    {
        let mut program = Program::new();
        proof {
            theorem_parsed_program_is_well_formed(self.stream());
        }
        while self.current.is_some()
            invariant
                self.wf(),
                parse_statements(self.stream(), program@) == parse_program(old(self).stream()),
            decreases self.stream().len(),
        {
            let stmt = match self.parse_statement() {
                Ok(stmt) => stmt,
                Err(e) => {
                    return Err(e);
                },
            };
            program.add_statement(stmt);
        }
        Ok(program)
    }

    fn parse_statement(&mut self) -> (r: Result<StatementNode, ParseError>)
        requires
            old(self).wf(),
        ensures
            final(self).wf(),
            parsed_as(
                match r {
                    Ok(v) => Ok(v@),
                    Err(e) => Err(e@),
                },
                final(self).stream(),
                parse_statement(old(self).stream()),
            ),
            r is Ok ==> final(self).stream().len() < old(self).stream().len(),
        decreases old(self).stream().len(), 5int,
    {
        let stmt: StatementNode = if self.at(&TokenType::Let) {
            match self.parse_let_statement() {
                Ok(stmt) => StatementNode::from(stmt),
                Err(e) => {
                    return Err(e);
                },
            }
        } else if self.at(&TokenType::Return) {
            match self.parse_return_statement() {
                Ok(stmt) => StatementNode::from(stmt),
                Err(e) => {
                    return Err(e);
                },
            }
        } else {
            match self.parse_expression_statement() {
                Ok(stmt) => StatementNode::from(stmt),
                Err(e) => {
                    return Err(e);
                },
            }
        };
        let _ = self.expect(TokenType::Semicolon);
        Ok(stmt)
    }

    fn parse_let_statement(&mut self) -> (r: Result<LetStatement, ParseError>)
        requires
            old(self).wf(),
        ensures
            final(self).wf(),
            parsed_as(
                match r {
                    Ok(v) => Ok(v@),
                    Err(e) => Err(e@),
                },
                final(self).stream(),
                parse_let_statement(old(self).stream()),
            ),
            r is Ok ==> final(self).stream().len() < old(self).stream().len(),
        decreases old(self).stream().len(), 1int,
    {
        let token = match self.take(TokenType::Let) {
            Ok(token) => token,
            Err(e) => {
                return Err(e);
            },
        };
        let ident = match self.parse_ident() {
            Ok(ident) => ident,
            Err(e) => {
                return Err(e);
            },
        };
        match self.expect(TokenType::Assign) {
            Ok(_) => {},
            Err(e) => {
                return Err(e);
            },
        }
        let expr = match self.parse_expression(0) {
            Ok(expr) => expr,
            Err(e) => {
                return Err(e);
            },
        };
        Ok(LetStatement::new(token, ident, expr))
    }

    fn parse_return_statement(&mut self) -> (r: Result<ReturnStatement, ParseError>)
        requires
            old(self).wf(),
        ensures
            final(self).wf(),
            parsed_as(
                match r {
                    Ok(v) => Ok(v@),
                    Err(e) => Err(e@),
                },
                final(self).stream(),
                parse_return_statement(old(self).stream()),
            ),
            r is Ok ==> final(self).stream().len() < old(self).stream().len(),
        decreases old(self).stream().len(), 1int,
    {
        let token = match self.take(TokenType::Return) {
            Ok(token) => token,
            Err(e) => {
                return Err(e);
            },
        };
        let expr = match self.parse_expression(0) {
            Ok(expr) => expr,
            Err(e) => {
                return Err(e);
            },
        };
        Ok(ReturnStatement::new(token, expr))
    }

    fn parse_expression_statement(&mut self) -> (r: Result<ExpressionStatement, ParseError>)
        requires
            old(self).wf(),
        ensures
            final(self).wf(),
            parsed_as(
                match r {
                    Ok(v) => Ok(v@),
                    Err(e) => Err(e@),
                },
                final(self).stream(),
                parse_expression_statement(old(self).stream()),
            ),
            r is Ok ==> final(self).stream().len() < old(self).stream().len(),
        decreases old(self).stream().len(), 4int,
    {
        let expr = match self.parse_expression(0) {
            Ok(expr) => expr,
            Err(e) => {
                return Err(e);
            },
        };
        Ok(ExpressionStatement::new(expr))
    }

    fn parse_ident(&mut self) -> (r: Result<Ident, ParseError>)
        requires
            old(self).wf(),
        ensures
            final(self).wf(),
            match r {
                Ok(ident) => {
                    &&& mismatch(old(self).stream(), any_ident()) is None
                    &&& ident@ == old(self).stream()[0]
                    &&& final(self).stream() == old(self).stream().drop_first()
                },
                Err(e) => {
                    &&& mismatch(old(self).stream(), any_ident()) == Some(e@)
                    &&& final(self).stream() == old(self).stream()
                },
            },
    {
        match self.take(TokenType::Ident(String::new())) {
            Ok(token) => Ok(Ident::new(token)),
            Err(e) => Err(e),
        }
    }

    fn parse_int(&mut self) -> (r: Result<Int, ParseError>)
        requires
            old(self).wf(),
        ensures
            final(self).wf(),
            match r {
                Ok(e) => {
                    &&& mismatch(old(self).stream(), TokenKind::Int(Seq::empty())) is None
                    &&& e@ == ExprView::Int(old(self).stream()[0])
                    &&& final(self).stream() == old(self).stream().drop_first()
                },
                Err(e) => {
                    &&& mismatch(old(self).stream(), TokenKind::Int(Seq::empty())) == Some(e@)
                    &&& final(self).stream() == old(self).stream()
                },
            },
    {
        match self.take(TokenType::Int(String::new())) {
            Ok(token) => Ok(Int::new(token)),
            Err(e) => Err(e),
        }
    }

    fn parse_bool(&mut self) -> (r: Bool)
        requires
            old(self).wf(),
            old(self).stream().len() > 0,
        ensures
            final(self).wf(),
            r@ == ExprView::Bool(old(self).stream()[0]),
            final(self).stream() == old(self).stream().drop_first(),
    {
        let token = self.advance_tokens();
        Bool::new(token.unwrap())
    }

    fn parse_block(&mut self) -> (r: Result<Block, ParseError>)
        requires
            old(self).wf(),
        ensures
            final(self).wf(),
            parsed_as(
                match r {
                    Ok(v) => Ok(v@),
                    Err(e) => Err(e@),
                },
                final(self).stream(),
                parse_block(old(self).stream()),
            ),
            r is Ok ==> final(self).stream().len() < old(self).stream().len(),
        decreases old(self).stream().len(), 1int,
    {
        match self.expect(TokenType::Lbrace) {
            Ok(_) => {},
            Err(e) => {
                return Err(e);
            },
        }
        let ghost start = self.stream();
        let mut stmts: Vec<StatementNode> = Vec::new();
        assert(view_statements(stmts@) =~= Seq::<StmtView>::empty());
        while !self.at(&TokenType::Rbrace)
            invariant
                self.wf(),
                self.stream().len() <= start.len(),
                start.len() < old(self).stream().len(),
                parse_block_statements(self.stream(), view_statements(stmts@)) == parse_block(
                    old(self).stream(),
                ),
            decreases self.stream().len(),
        {
            let ghost before = view_statements(stmts@);
            let stmt = match self.parse_statement() {
                Ok(stmt) => stmt,
                Err(e) => {
                    return Err(e);
                },
            };
            stmts.push(stmt);
            assert(view_statements(stmts@) =~= before.push(stmt@));
        }
        let _ = self.expect(TokenType::Rbrace);
        Ok(Block::new(stmts))
    }

    fn parse_if_else(&mut self) -> (r: Result<If, ParseError>)
        requires
            old(self).wf(),
        ensures
            final(self).wf(),
            parsed_as(
                match r {
                    Ok(v) => Ok(v@),
                    Err(e) => Err(e@),
                },
                final(self).stream(),
                parse_if_else(old(self).stream()),
            ),
            r is Ok ==> final(self).stream().len() < old(self).stream().len(),
        decreases old(self).stream().len(), 1int,
    {
        let token = match self.take(TokenType::If) {
            Ok(token) => token,
            Err(e) => {
                return Err(e);
            },
        };
        let condition = match self.parse_expression(0) {
            Ok(expr) => expr,
            Err(e) => {
                return Err(e);
            },
        };
        let action = match self.parse_block() {
            Ok(block) => block,
            Err(e) => {
                return Err(e);
            },
        };
        let mut alternate: Option<Block> = None;
        if self.expect(TokenType::Else).is_ok() {
            alternate = match self.parse_block() {
                Ok(block) => Some(block),
                Err(e) => {
                    return Err(e);
                },
            };
        }
        Ok(If::new(token, condition, action, alternate))
    }

    fn parse_arg_list(&mut self) -> (r: Result<Vec<Ident>, ParseError>)
        requires
            old(self).wf(),
        ensures
            final(self).wf(),
            parsed_as(
                match r {
                    Ok(v) => Ok(view_idents(v@)),
                    Err(e) => Err(e@),
                },
                final(self).stream(),
                parse_arg_list(old(self).stream()),
            ),
            r is Ok ==> final(self).stream().len() < old(self).stream().len(),
    {
        match self.expect(TokenType::Lparen) {
            Ok(_) => {},
            Err(e) => {
                return Err(e);
            },
        }
        let ghost start = self.stream();
        let mut args: Vec<Ident> = Vec::new();
        let mut tc: Result<(), ParseError> = Ok(());
        assert(view_idents(args@) =~= Seq::<TokenView>::empty());
        while !self.at(&TokenType::Rparen)
            invariant
                self.wf(),
                self.stream().len() <= start.len(),
                start.len() < old(self).stream().len(),
                parse_params(
                    self.stream(),
                    match tc {
                        Ok(_) => None,
                        Err(e) => Some(e@),
                    },
                    view_idents(args@),
                ) == parse_arg_list(old(self).stream()),
            decreases self.stream().len(),
        {
            match tc {
                Ok(_) => {},
                Err(e) => {
                    return Err(e);
                },
            }
            let ghost before = view_idents(args@);
            let ident = match self.parse_ident() {
                Ok(ident) => ident,
                Err(e) => {
                    return Err(e);
                },
            };
            args.push(ident);
            assert(view_idents(args@) =~= before.push(ident@));
            tc = self.expect(TokenType::Comma);
        }
        let _ = self.expect(TokenType::Rparen);
        Ok(args)
    }

    fn parse_call_arg_list(&mut self) -> (r: Result<Vec<ExpressionNode>, ParseError>)
        requires
            old(self).wf(),
        ensures
            final(self).wf(),
            parsed_as(
                match r {
                    Ok(v) => Ok(view_expressions(v@)),
                    Err(e) => Err(e@),
                },
                final(self).stream(),
                parse_call_args(old(self).stream()),
            ),
            r is Ok ==> final(self).stream().len() < old(self).stream().len(),
        decreases old(self).stream().len(), 5int,
    {
        match self.expect(TokenType::Lparen) {
            Ok(_) => {},
            Err(e) => {
                return Err(e);
            },
        }
        let ghost start = self.stream();
        let mut args: Vec<ExpressionNode> = Vec::new();
        let mut tc: Result<(), ParseError> = Ok(());
        assert(view_expressions(args@) =~= Seq::<ExprView>::empty());
        while !self.at(&TokenType::Rparen)
            invariant
                self.wf(),
                self.stream().len() <= start.len(),
                start.len() < old(self).stream().len(),
                parse_call_arg_list(
                    self.stream(),
                    match tc {
                        Ok(_) => None,
                        Err(e) => Some(e@),
                    },
                    view_expressions(args@),
                ) == parse_call_args(old(self).stream()),
            decreases self.stream().len(),
        {
            match tc {
                Ok(_) => {},
                Err(e) => {
                    return Err(e);
                },
            }
            let ghost before = view_expressions(args@);
            let arg = match self.parse_expression(0) {
                Ok(arg) => arg,
                Err(e) => {
                    return Err(e);
                },
            };
            args.push(arg);
            assert(view_expressions(args@) =~= before.push(arg@));
            tc = self.expect(TokenType::Comma);
        }
        let _ = self.expect(TokenType::Rparen);
        Ok(args)
    }

    fn parse_function(&mut self) -> (r: Result<Function, ParseError>)
        requires
            old(self).wf(),
        ensures
            final(self).wf(),
            parsed_as(
                match r {
                    Ok(v) => Ok(v@),
                    Err(e) => Err(e@),
                },
                final(self).stream(),
                parse_function(old(self).stream()),
            ),
            r is Ok ==> final(self).stream().len() < old(self).stream().len(),
        decreases old(self).stream().len(), 1int,
    {
        let token = match self.take(TokenType::Function) {
            Ok(token) => token,
            Err(e) => {
                return Err(e);
            },
        };
        let args = match self.parse_arg_list() {
            Ok(args) => args,
            Err(e) => {
                return Err(e);
            },
        };
        let body = match self.parse_block() {
            Ok(block) => block,
            Err(e) => {
                return Err(e);
            },
        };
        Ok(Function::new(token, args, body))
    }

    /// Parses one prefix term.
    fn parse_prefix(&mut self) -> (r: Result<ExpressionNode, ParseError>)
        requires
            old(self).wf(),
            old(self).stream().len() > 0,
        ensures
            final(self).wf(),
            parsed_as(
                match r {
                    Ok(v) => Ok(v@),
                    Err(e) => Err(e@),
                },
                final(self).stream(),
                parse_prefix(old(self).stream()),
            ),
            r is Ok ==> final(self).stream().len() < old(self).stream().len(),
        decreases old(self).stream().len(), 2int,
    {
        if self.at(&TokenType::Ident(String::new())) {
            match self.parse_ident() {
                Ok(ident) => Ok(ExpressionNode::from(ident)),
                Err(e) => Err(e),
            }
        } else if self.at(&TokenType::Int(String::new())) {
            match self.parse_int() {
                Ok(literal) => Ok(ExpressionNode::from(literal)),
                Err(e) => Err(e),
            }
        } else if self.at(&TokenType::True) || self.at(&TokenType::False) {
            Ok(ExpressionNode::from(self.parse_bool()))
        } else if self.at(&TokenType::Lparen) {
            let _ = self.advance_tokens();
            let expr = match self.parse_expression(0) {
                Ok(expr) => expr,
                Err(e) => {
                    return Err(e);
                },
            };
            match self.expect(TokenType::Rparen) {
                Ok(_) => Ok(expr),
                Err(e) => Err(e),
            }
        } else if self.at(&TokenType::Plus) || self.at(&TokenType::Minus) || self.at(
            &TokenType::Bang,
        ) {
            let operator = self.advance_tokens().unwrap();
            let operand = match self.parse_expression(100) {
                Ok(expr) => expr,
                Err(e) => {
                    return Err(e);
                },
            };
            Ok(ExpressionNode::from(UnaryOperator::new(operator, operand)))
        } else if self.at(&TokenType::Lbrace) {
            match self.parse_block() {
                Ok(block) => Ok(ExpressionNode::from(block)),
                Err(e) => Err(e),
            }
        } else if self.at(&TokenType::If) {
            match self.parse_if_else() {
                Ok(node) => Ok(ExpressionNode::from(node)),
                Err(e) => Err(e),
            }
        } else if self.at(&TokenType::Function) {
            match self.parse_function() {
                Ok(node) => Ok(ExpressionNode::from(node)),
                Err(e) => Err(e),
            }
        } else {
            let found = self.advance_tokens();
            Err(
                ParseError {
                    expected: String::from_str("Ident|Int|UnaryOperator|(|{|if|fn"),
                    found,
                },
            )
        }
    }

    /// Parses an expression whose operators bind at least as tightly as
    /// `prec`.
    fn parse_expression(&mut self, prec: i8) -> (r: Result<ExpressionNode, ParseError>)
        requires
            old(self).wf(),
        ensures
            final(self).wf(),
            parsed_as(
                match r {
                    Ok(v) => Ok(v@),
                    Err(e) => Err(e@),
                },
                final(self).stream(),
                parse_expression(old(self).stream(), prec as int),
            ),
            r is Ok ==> final(self).stream().len() < old(self).stream().len(),
        decreases old(self).stream().len(), 3int,
    {
        if self.current.is_none() {
            return Err(ParseError { expected: String::from_str("Any Expression"), found: None });
        }
        let mut left = match self.parse_prefix() {
            Ok(expr) => expr,
            Err(e) => {
                return Err(e);
            },
        };
        let ghost start = self.stream();
        let mut nop = self.current_precedence();
        while self.current.is_some() && prec <= nop
            invariant
                self.wf(),
                nop as int == precedence(first(self.stream())),
                self.stream().len() <= start.len(),
                start.len() < old(self).stream().len(),
                parse_infix(left@, self.stream(), prec as int) == parse_expression(
                    old(self).stream(),
                    prec as int,
                ),
            decreases self.stream().len(),
        {
            if self.at(&TokenType::Lparen) {
                let site = self.current_token();
                let args = match self.parse_call_arg_list() {
                    Ok(args) => args,
                    Err(e) => {
                        return Err(e);
                    },
                };
                left = ExpressionNode::from(FunctionCall::new(site, left, args));
            } else {
                let bop = self.advance_tokens().unwrap();
                let right = match self.parse_expression(nop + 1) {
                    Ok(expr) => expr,
                    Err(e) => {
                        return Err(e);
                    },
                };
                left = ExpressionNode::from(BinaryOperator::new(bop, left, right));
            }
            nop = self.current_precedence();
        }
        Ok(left)
    }
}

} // verus!