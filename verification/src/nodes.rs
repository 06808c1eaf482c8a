//! The parts of the tree by their own names: one type for each form of
//! expression and statement, and the conversions into the two node types.

use vstd::prelude::*;
use vstd::std_specs::convert::FromSpecImpl;
use crate::ast::{Block, ExprView, ExpressionNode, Ident, StatementNode, StmtView};
use crate::token::Token;

verus! {

/// An integer literal.
#[derive(Debug)]
pub struct Int(pub Token);

impl Int {
    /// The literal that a token spells.
    pub fn new(inner: Token) -> (r: Int)
        ensures
            r.0 == inner,
    {
        Self(inner)
    }
}

/// A boolean literal.
#[derive(Debug)]
pub struct Bool(pub Token);

impl Bool {
    /// The literal that a token spells.
    pub fn new(inner: Token) -> (r: Bool)
        ensures
            r.0 == inner,
    {
        Self(inner)
    }
}

/// A prefix operator and its operand.
#[derive(Debug)]
pub struct UnaryOperator {
    pub token: Token,
    pub operand: ExpressionNode,
}

impl UnaryOperator {
    /// The operator applied to the operand.
    pub fn new(operator: Token, operand: ExpressionNode) -> (r: UnaryOperator)
        ensures
            r.token == operator,
            r.operand == operand,
    {
        Self { token: operator, operand }
    }
}

/// A binary operator and its two operands.
#[derive(Debug)]
pub struct BinaryOperator {
    pub token: Token,
    pub lhs: ExpressionNode,
    pub rhs: ExpressionNode,
}

impl BinaryOperator {
    /// The operator applied to the two operands.
    pub fn new(bop: Token, lhs: ExpressionNode, rhs: ExpressionNode) -> (r: BinaryOperator)
        ensures
            r.token == bop,
            r.lhs == lhs,
            r.rhs == rhs,
    {
        Self { token: bop, lhs, rhs }
    }
}

/// An `if` with its condition, its consequence and its alternative.
#[derive(Debug)]
pub struct If {
    pub token: Token,
    pub condition: ExpressionNode,
    pub action: Block,
    pub alternate: Option<Block>,
}

impl If {
    /// The `if` of the given parts.
    pub fn new(token: Token, condition: ExpressionNode, action: Block, alternate: Option<Block>)
        -> (r: If)
        ensures
            r.token == token,
            r.condition == condition,
            r.action == action,
            r.alternate == alternate,
    {
        Self { token, condition, action, alternate }
    }
}

/// A function literal with its parameters and its body.
#[derive(Debug)]
pub struct Function {
    pub token: Token,
    pub args: Vec<Ident>,
    pub body: Block,
}

impl Function {
    /// The function literal of the given parts.
    pub fn new(token: Token, args: Vec<Ident>, body: Block) -> (r: Function)
        ensures
            r.token == token,
            r.args == args,
            r.body == body,
    {
        Self { token, args, body }
    }
}

/// A call with its callee and its arguments.
#[derive(Debug)]
pub struct FunctionCall {
    pub token: Token,
    pub function: ExpressionNode,
    pub args: Vec<ExpressionNode>,
}

impl FunctionCall {
    /// The call of the function with the arguments.
    pub fn new(token: Token, function: ExpressionNode, args: Vec<ExpressionNode>) -> (r:
        FunctionCall)
        ensures
            r.token == token,
            r.function == function,
            r.args == args,
    {
        Self { token, function, args }
    }
}

/// A `let` with its name and its value.
#[derive(Debug)]
pub struct LetStatement {
    pub token: Token,
    pub ident: Ident,
    pub assign_val: ExpressionNode,
}

impl LetStatement {
    /// The `let` that binds the name to the value.
    pub fn new(token: Token, ident: Ident, assign_val: ExpressionNode) -> (r: LetStatement)
        ensures
            r.token == token,
            r.ident == ident,
            r.assign_val == assign_val,
    {
        Self { token, ident, assign_val }
    }
}

/// A `return` with its value.
#[derive(Debug)]
pub struct ReturnStatement {
    pub token: Token,
    pub ret_val: ExpressionNode,
}

impl ReturnStatement {
    /// The `return` of the value.
    pub fn new(token: Token, ret_val: ExpressionNode) -> (r: ReturnStatement)
        ensures
            r.token == token,
            r.ret_val == ret_val,
    {
        Self { token, ret_val }
    }
}

/// An expression that stands as a statement.
#[derive(Debug)]
pub struct ExpressionStatement(pub ExpressionNode);

impl ExpressionStatement {
    /// The statement that the expression is.
    pub fn new(expr: ExpressionNode) -> (r: ExpressionStatement)
        ensures
            r.0 == expr,
    {
        Self(expr)
    }
}

impl View for Int {
    type V = ExprView;

    open spec fn view(&self) -> ExprView {
        ExpressionNode::Int(self.0)@
    }
}

impl View for Bool {
    type V = ExprView;

    open spec fn view(&self) -> ExprView {
        ExpressionNode::Bool(self.0)@
    }
}

impl View for UnaryOperator {
    type V = ExprView;

    open spec fn view(&self) -> ExprView {
        ExpressionNode::UnaryOperator(self.token, Box::new(self.operand))@
    }
}

impl View for BinaryOperator {
    type V = ExprView;

    open spec fn view(&self) -> ExprView {
        ExpressionNode::BinaryOperator(self.token, Box::new(self.lhs), Box::new(self.rhs))@
    }
}

impl View for If {
    type V = ExprView;

    open spec fn view(&self) -> ExprView {
        ExpressionNode::If(self.token, Box::new(self.condition), self.action, self.alternate)@
    }
}

impl View for Function {
    type V = ExprView;

    open spec fn view(&self) -> ExprView {
        ExpressionNode::Function(self.token, self.args, self.body)@
    }
}

impl View for FunctionCall {
    type V = ExprView;

    open spec fn view(&self) -> ExprView {
        ExpressionNode::FunctionCall(self.token, Box::new(self.function), self.args)@
    }
}

impl View for LetStatement {
    type V = StmtView;

    open spec fn view(&self) -> StmtView {
        StatementNode::Let(self.token, self.ident, self.assign_val)@
    }
}

impl View for ReturnStatement {
    type V = StmtView;

    open spec fn view(&self) -> StmtView {
        StatementNode::Return(self.token, self.ret_val)@
    }
}

impl View for ExpressionStatement {
    type V = StmtView;

    open spec fn view(&self) -> StmtView {
        StatementNode::Expression(self.0)@
    }
}

impl From<Ident> for ExpressionNode {
    fn from(value: Ident) -> (r: ExpressionNode) {
        Self::Ident(value.0)
    }
}

impl FromSpecImpl<Ident> for ExpressionNode {
    open spec fn obeys_from_spec() -> bool {
        true
    }

    open spec fn from_spec(value: Ident) -> ExpressionNode {
        ExpressionNode::Ident(value.0)
    }
}

impl From<Int> for ExpressionNode {
    fn from(value: Int) -> (r: ExpressionNode) {
        Self::Int(value.0)
    }
}

impl FromSpecImpl<Int> for ExpressionNode {
    open spec fn obeys_from_spec() -> bool {
        true
    }

    open spec fn from_spec(value: Int) -> ExpressionNode {
        ExpressionNode::Int(value.0)
    }
}

impl From<Bool> for ExpressionNode {
    fn from(value: Bool) -> (r: ExpressionNode) {
        Self::Bool(value.0)
    }
}

impl FromSpecImpl<Bool> for ExpressionNode {
    open spec fn obeys_from_spec() -> bool {
        true
    }

    open spec fn from_spec(value: Bool) -> ExpressionNode {
        ExpressionNode::Bool(value.0)
    }
}

impl From<UnaryOperator> for ExpressionNode {
    fn from(value: UnaryOperator) -> (r: ExpressionNode) {
        Self::UnaryOperator(value.token, Box::new(value.operand))
    }
}

impl FromSpecImpl<UnaryOperator> for ExpressionNode {
    open spec fn obeys_from_spec() -> bool {
        true
    }

    open spec fn from_spec(value: UnaryOperator) -> ExpressionNode {
        ExpressionNode::UnaryOperator(value.token, Box::new(value.operand))
    }
}

impl From<BinaryOperator> for ExpressionNode {
    fn from(value: BinaryOperator) -> (r: ExpressionNode) {
        Self::BinaryOperator(value.token, Box::new(value.lhs), Box::new(value.rhs))
    }
}

impl FromSpecImpl<BinaryOperator> for ExpressionNode {
    open spec fn obeys_from_spec() -> bool {
        true
    }

    open spec fn from_spec(value: BinaryOperator) -> ExpressionNode {
        ExpressionNode::BinaryOperator(value.token, Box::new(value.lhs), Box::new(value.rhs))
    }
}

impl From<Block> for ExpressionNode {
    fn from(value: Block) -> (r: ExpressionNode) {
        Self::Block(value.statements)
    }
}

impl FromSpecImpl<Block> for ExpressionNode {
    open spec fn obeys_from_spec() -> bool {
        true
    }

    open spec fn from_spec(value: Block) -> ExpressionNode {
        ExpressionNode::Block(value.statements)
    }
}

impl From<If> for ExpressionNode {
    fn from(value: If) -> (r: ExpressionNode) {
        Self::If(value.token, Box::new(value.condition), value.action, value.alternate)
    }
}

impl FromSpecImpl<If> for ExpressionNode {
    open spec fn obeys_from_spec() -> bool {
        true
    }

    open spec fn from_spec(value: If) -> ExpressionNode {
        ExpressionNode::If(value.token, Box::new(value.condition), value.action, value.alternate)
    }
}

impl From<Function> for ExpressionNode {
    fn from(value: Function) -> (r: ExpressionNode) {
        Self::Function(value.token, value.args, value.body)
    }
}

impl FromSpecImpl<Function> for ExpressionNode {
    open spec fn obeys_from_spec() -> bool {
        true
    }

    open spec fn from_spec(value: Function) -> ExpressionNode {
        ExpressionNode::Function(value.token, value.args, value.body)
    }
}

impl From<FunctionCall> for ExpressionNode {
    fn from(value: FunctionCall) -> (r: ExpressionNode) {
        Self::FunctionCall(value.token, Box::new(value.function), value.args)
    }
}

impl FromSpecImpl<FunctionCall> for ExpressionNode {
    open spec fn obeys_from_spec() -> bool {
        true
    }

    open spec fn from_spec(value: FunctionCall) -> ExpressionNode {
        ExpressionNode::FunctionCall(value.token, Box::new(value.function), value.args)
    }
}

impl From<LetStatement> for StatementNode {
    fn from(value: LetStatement) -> (r: StatementNode) {
        Self::Let(value.token, value.ident, value.assign_val)
    }
}

impl FromSpecImpl<LetStatement> for StatementNode {
    open spec fn obeys_from_spec() -> bool {
        true
    }

    open spec fn from_spec(value: LetStatement) -> StatementNode {
        StatementNode::Let(value.token, value.ident, value.assign_val)
    }
}

impl From<ReturnStatement> for StatementNode {
    fn from(value: ReturnStatement) -> (r: StatementNode) {
        Self::Return(value.token, value.ret_val)
    }
}

impl FromSpecImpl<ReturnStatement> for StatementNode {
    open spec fn obeys_from_spec() -> bool {
        true
    }

    open spec fn from_spec(value: ReturnStatement) -> StatementNode {
        StatementNode::Return(value.token, value.ret_val)
    }
}

impl From<ExpressionStatement> for StatementNode {
    fn from(value: ExpressionStatement) -> (r: StatementNode) {
        Self::Expression(value.0)
    }
}

impl FromSpecImpl<ExpressionStatement> for StatementNode {
    open spec fn obeys_from_spec() -> bool {
        true
    }

    open spec fn from_spec(value: ExpressionStatement) -> StatementNode {
        StatementNode::Expression(value.0)
    }
}

} // verus!
