//! The syntax tree that the parser builds and that the evaluator and the
//! compiler read.

use vstd::prelude::*;
use crate::token::{Token, TokenKind, TokenType, TokenView};

verus! {

/// A name in the tree: the identifier token that spelled it.
#[derive(Debug, PartialEq, Eq)]
pub struct Ident(pub Token);

/// A sequence of statements between braces.
#[derive(Debug, PartialEq, Eq)]
pub struct Block {
    pub statements: Vec<StatementNode>,
}

/// An expression. Every node keeps the token that produced it.
#[derive(Debug, PartialEq, Eq)]
pub enum ExpressionNode {
    Ident(Token),
    Int(Token),
    Bool(Token),
    /// The operator's token and the operand.
    UnaryOperator(Token, Box<ExpressionNode>),
    /// The operator's token, the left operand and the right operand.
    BinaryOperator(Token, Box<ExpressionNode>, Box<ExpressionNode>),
    Block(Vec<StatementNode>),
    /// The token of `if`, the condition, the consequence and the alternative.
    If(Token, Box<ExpressionNode>, Block, Option<Block>),
    /// The token of `fn`, the parameters and the body.
    Function(Token, Vec<Ident>, Block),
    /// The token of the opening parenthesis, the callee and the arguments.
    FunctionCall(Token, Box<ExpressionNode>, Vec<ExpressionNode>),
}

/// A statement.
#[derive(Debug, PartialEq, Eq)]
pub enum StatementNode {
    /// The token of `let`, the name and the value.
    Let(Token, Ident, ExpressionNode),
    /// The token of `return` and the value.
    Return(Token, ExpressionNode),
    Expression(ExpressionNode),
}

/// A whole program: the root of the tree.
#[derive(Debug, PartialEq, Eq)]
pub struct Program {
    pub statements: Vec<StatementNode>,
}

/// Anything that can be evaluated or compiled: a program, a statement or an
/// expression.
#[derive(Debug, PartialEq, Eq)]
pub enum Node {
    Program(Program),
    Statement(StatementNode),
    Expression(ExpressionNode),
}

/// The mathematical value of a [`Node`].
pub ghost enum NodeView {
    Program(Seq<StmtView>),
    Statement(StmtView),
    Expression(ExprView),
}

/// The mathematical value of an [`ExpressionNode`]. A name is the view of its
/// token, a block the sequence of its statements.
pub ghost enum ExprView {
    Ident(TokenView),
    Int(TokenView),
    Bool(TokenView),
    Unary(TokenView, Box<ExprView>),
    Binary(TokenView, Box<ExprView>, Box<ExprView>),
    Block(Seq<StmtView>),
    If(TokenView, Box<ExprView>, Seq<StmtView>, Option<Seq<StmtView>>),
    Function(TokenView, Seq<TokenView>, Seq<StmtView>),
    Call(TokenView, Box<ExprView>, Seq<ExprView>),
}

/// The mathematical value of a [`StatementNode`].
pub ghost enum StmtView {
    Let(TokenView, TokenView, ExprView),
    Return(TokenView, ExprView),
    Expression(ExprView),
}

/// The mathematical value of an expression.
pub open spec fn view_expression(e: ExpressionNode) -> ExprView
    decreases e,
{
    match e {
        ExpressionNode::Ident(t) => ExprView::Ident(t@),
        ExpressionNode::Int(t) => ExprView::Int(t@),
        ExpressionNode::Bool(t) => ExprView::Bool(t@),
        ExpressionNode::UnaryOperator(t, operand) => ExprView::Unary(
            t@,
            Box::new(view_expression(*operand)),
        ),
        ExpressionNode::BinaryOperator(t, lhs, rhs) => ExprView::Binary(
            t@,
            Box::new(view_expression(*lhs)),
            Box::new(view_expression(*rhs)),
        ),
        ExpressionNode::Block(statements) => ExprView::Block(view_statements(statements@)),
        ExpressionNode::If(t, condition, action, alternate) => ExprView::If(
            t@,
            Box::new(view_expression(*condition)),
            view_statements(action.statements@),
            match alternate {
                Some(block) => Some(view_statements(block.statements@)),
                None => None,
            },
        ),
        ExpressionNode::Function(t, params, body) => ExprView::Function(
            t@,
            view_idents(params@),
            view_statements(body.statements@),
        ),
        ExpressionNode::FunctionCall(t, function, args) => ExprView::Call(
            t@,
            Box::new(view_expression(*function)),
            view_expressions(args@),
        ),
    }
}

/// The mathematical value of a statement.
pub open spec fn view_statement(s: StatementNode) -> StmtView
    decreases s,
{
    match s {
        StatementNode::Let(t, ident, value) => StmtView::Let(t@, ident.0@, view_expression(value)),
        StatementNode::Return(t, value) => StmtView::Return(t@, view_expression(value)),
        StatementNode::Expression(e) => StmtView::Expression(view_expression(e)),
    }
}

/// The mathematical values of a list of statements.
pub open spec fn view_statements(v: Seq<StatementNode>) -> Seq<StmtView>
    decreases v,
{
    Seq::new(
        v.len(),
        |i: int|
            if 0 <= i < v.len() {
                view_statement(v[i])
            } else {
                arbitrary()
            },
    )
}

/// The mathematical values of a list of expressions.
pub open spec fn view_expressions(v: Seq<ExpressionNode>) -> Seq<ExprView>
    decreases v,
{
    Seq::new(
        v.len(),
        |i: int|
            if 0 <= i < v.len() {
                view_expression(v[i])
            } else {
                arbitrary()
            },
    )
}

/// The tokens of a list of names.
pub open spec fn view_idents(v: Seq<Ident>) -> Seq<TokenView> {
    Seq::new(v.len(), |i: int| v[i].0@)
}

impl View for Ident {
    type V = TokenView;

    open spec fn view(&self) -> TokenView {
        self.0@
    }
}

impl View for Block {
    type V = Seq<StmtView>;

    open spec fn view(&self) -> Seq<StmtView> {
        view_statements(self.statements@)
    }
}

impl View for ExpressionNode {
    type V = ExprView;

    open spec fn view(&self) -> ExprView {
        view_expression(*self)
    }
}

impl View for StatementNode {
    type V = StmtView;

    open spec fn view(&self) -> StmtView {
        view_statement(*self)
    }
}

impl View for Node {
    type V = NodeView;

    open spec fn view(&self) -> NodeView {
        match self {
            Node::Program(program) => NodeView::Program(program@),
            Node::Statement(statement) => NodeView::Statement(statement@),
            Node::Expression(expression) => NodeView::Expression(expression@),
        }
    }
}

impl View for Program {
    type V = Seq<StmtView>;

    open spec fn view(&self) -> Seq<StmtView> {
        view_statements(self.statements@)
    }
}

impl Ident {
    /// The name that a token spells.
    pub fn new(inner: Token) -> (r: Ident)
        ensures
            r.0 == inner,
    {
        Ident(inner)
    }

    /// The name that this identifier spells.
    pub fn get_string(&self) -> (r: String)
        requires
            self@.kind is Ident,
        ensures
            self@.kind == TokenKind::Ident(r@),
    {
        match &self.0.kind {
            TokenType::Ident(ident) => ident.clone(),
            _ => {
                assert(false);
                String::new()
            },
        }
    }
}

impl Clone for Ident {
    fn clone(&self) -> (r: Ident)
        ensures
            r@ == self@,
    {
        Ident(self.0.clone())
    }
}

impl Block {
    /// The block of the given statements.
    pub fn new(statements: Vec<StatementNode>) -> (r: Block)
        ensures
            r.statements == statements,
    {
        Block { statements }
    }
}

impl Program {
    /// The empty program.
    pub fn new() -> (r: Program)
        ensures
            r@ == Seq::<StmtView>::empty(),
    {
        let r = Program { statements: Vec::new() };
        assert(r@ =~= Seq::<StmtView>::empty());
        r
    }

    /// Appends a statement.
    pub fn add_statement(&mut self, stmt: StatementNode)
        ensures
            final(self)@ == old(self)@.push(stmt@),
    {
        self.statements.push(stmt);
        assert(self@ =~= old(self)@.push(stmt@));
    }
}

/// A copy of a list of names.
pub fn clone_idents(v: &Vec<Ident>) -> (r: Vec<Ident>)
    ensures
        view_idents(r@) == view_idents(v@),
{
    let mut r: Vec<Ident> = Vec::new();
    let mut i: usize = 0;
    while i < v.len()
        invariant
            i <= v.len(),
            r.len() == i,
            forall|j: int| 0 <= j < i ==> r[j]@ == v[j]@,
        decreases v.len() - i,
    {
        r.push(v[i].clone());
        i += 1;
    }
    assert(view_idents(r@) =~= view_idents(v@));
    r
}

/// A copy of an expression.
pub fn clone_expression(e: &ExpressionNode) -> (r: ExpressionNode)
    ensures
        r@ == e@,
    decreases e,
{
    match e {
        ExpressionNode::Ident(t) => ExpressionNode::Ident(t.clone()),
        ExpressionNode::Int(t) => ExpressionNode::Int(t.clone()),
        ExpressionNode::Bool(t) => ExpressionNode::Bool(t.clone()),
        ExpressionNode::UnaryOperator(t, operand) => ExpressionNode::UnaryOperator(
            t.clone(),
            Box::new(clone_expression(operand)),
        ),
        ExpressionNode::BinaryOperator(t, lhs, rhs) => ExpressionNode::BinaryOperator(
            t.clone(),
            Box::new(clone_expression(lhs)),
            Box::new(clone_expression(rhs)),
        ),
        ExpressionNode::Block(statements) => {
            assert(decreases_to!(*e => e->Block_0));
            ExpressionNode::Block(clone_statements(statements))
        },
        ExpressionNode::If(t, condition, action, alternate) => {
            assert(decreases_to!(*e => e->If_2));
            assert(decreases_to!(e->If_2 => e->If_2.statements));
            let alt = match alternate {
                Some(block) => {
                    assert(decreases_to!(*e => e->If_3));
                    assert(decreases_to!(e->If_3 => e->If_3->Some_0));
                    assert(decreases_to!(e->If_3->Some_0 => e->If_3->Some_0.statements));
                    Some(Block { statements: clone_statements(&block.statements) })
                },
                None => None,
            };
            ExpressionNode::If(
                t.clone(),
                Box::new(clone_expression(condition)),
                Block { statements: clone_statements(&action.statements) },
                alt,
            )
        },
        ExpressionNode::Function(t, params, body) => {
            assert(decreases_to!(*e => e->Function_2));
            assert(decreases_to!(e->Function_2 => e->Function_2.statements));
            ExpressionNode::Function(
                t.clone(),
                clone_idents(params),
                Block { statements: clone_statements(&body.statements) },
            )
        },
        ExpressionNode::FunctionCall(t, function, args) => {
            assert(decreases_to!(*e => e->FunctionCall_2));
            ExpressionNode::FunctionCall(
                t.clone(),
                Box::new(clone_expression(function)),
                clone_expressions(args),
            )
        },
    }
}

/// A copy of a statement.
pub fn clone_statement(s: &StatementNode) -> (r: StatementNode)
    ensures
        r@ == s@,
    decreases s,
{
    match s {
        StatementNode::Let(t, ident, value) => StatementNode::Let(
            t.clone(),
            ident.clone(),
            clone_expression(value),
        ),
        StatementNode::Return(t, value) => StatementNode::Return(
            t.clone(),
            clone_expression(value),
        ),
        StatementNode::Expression(e) => StatementNode::Expression(clone_expression(e)),
    }
}

/// A copy of a list of statements.
pub fn clone_statements(v: &Vec<StatementNode>) -> (r: Vec<StatementNode>)
    ensures
        view_statements(r@) == view_statements(v@),
    decreases v,
{
    let mut r: Vec<StatementNode> = Vec::new();
    let mut i: usize = 0;
    while i < v.len()
        invariant
            i <= v.len(),
            r.len() == i,
            forall|j: int| 0 <= j < i ==> r[j]@ == v[j]@,
        decreases v.len() - i,
    {
        assert(decreases_to!(v => v[i as int]));
        r.push(clone_statement(&v[i]));
        i += 1;
    }
    assert(view_statements(r@) =~= view_statements(v@));
    r
}

/// A copy of a list of expressions.
pub fn clone_expressions(v: &Vec<ExpressionNode>) -> (r: Vec<ExpressionNode>)
    ensures
        view_expressions(r@) == view_expressions(v@),
    decreases v,
{
    let mut r: Vec<ExpressionNode> = Vec::new();
    let mut i: usize = 0;
    while i < v.len()
        invariant
            i <= v.len(),
            r.len() == i,
            forall|j: int| 0 <= j < i ==> r[j]@ == v[j]@,
        decreases v.len() - i,
    {
        assert(decreases_to!(v => v[i as int]));
        r.push(clone_expression(&v[i]));
        i += 1;
    }
    assert(view_expressions(r@) =~= view_expressions(v@));
    r
}

impl Clone for Block {
    fn clone(&self) -> (r: Block)
        ensures
            r@ == self@,
    {
        Block { statements: clone_statements(&self.statements) }
    }
}

impl Clone for ExpressionNode {
    fn clone(&self) -> (r: ExpressionNode)
        ensures
            r@ == self@,
    {
        clone_expression(self)
    }
}

impl Clone for StatementNode {
    fn clone(&self) -> (r: StatementNode)
        ensures
            r@ == self@,
    {
        clone_statement(self)
    }
}

impl Clone for Program {
    fn clone(&self) -> (r: Program)
        ensures
            r@ == self@,
    {
        Program { statements: clone_statements(&self.statements) }
    }
}

} // verus!
