//! The compiler: it walks the tree and emits the instructions of a stack
//! machine, with the constants they refer to.

use vstd::prelude::*;
use crate::ast::{
    view_expressions, view_statements, ExprView, ExpressionNode, Node, NodeView, Program,
    StatementNode, StmtView,
};
use crate::bytecode::{
    capacity, encode, lemma_capacity, linearize, linearized, offset_after, resolved, size,
    Bytecode, Instruction, JUMP_WIDTH, OP_J, OP_JNT,
};
use crate::compilation;
use crate::compilation::{
    examine_expression, examine_statement, examine_statements, names_after_expression,
    names_after_statement, names_after_statements, resolved_expression, resolved_statement,
    resolved_statements, CompileErrorView, CompileIssue, Tally, bytecode_consistent,
    constant_in_order,
    lemma_extends_elided, lemma_in_order_among_more, lemma_pool_with, pool_in_order,
    compilable_expression, compilable_node, compilable_statement, compilable_statements,
    constants_in_expression, constants_in_node, constants_in_statement,
    constants_in_statements, definitions_in_expression, definitions_in_node,
    definitions_in_statement, definitions_in_statements, fits, grown, has_room, initial,
    constants_in_range, lemma_in_range_drop_last, lemma_in_range_more_constants,
    lemma_in_range_patch, lemma_in_range_push, lemma_in_range_scopes, scopes_in_range,
    lemma_extends_patch, lemma_extends_transitive, lemma_extends_without_trailing_pop,
    lemma_grown_add_constant, lemma_grown_define, lemma_grown_push, lemma_grown_reflexive,
    lemma_grown_transitive, max_constants, max_definitions, EmitterView,
};
use crate::dictionary::Dictionary;
use crate::object::{view_objects, Object, ObjectView};
use crate::text::parse_integer_text;
use crate::token::{Token, TokenType};

verus! {

/// Where a name lives. All names are global.
#[derive(Debug, Clone, Copy, PartialEq, Eq)]
pub enum Scope {
    Global,
}

/// A defined name and its slot.
#[derive(Debug)]
pub struct Symbol {
    pub name: String,
    pub scope: Scope,
    pub index: u16,
}

/// The names that are defined, each with its slot. Slots are given out in
/// the order of the definitions.
#[derive(Debug)]
pub struct SymbolTable {
    store: Dictionary<Symbol>,
    num_definitions: u16,
}

impl SymbolTable {
    /// The invariant of a table: that of its dictionary, and every symbol
    /// is global and stands under its own name.
    pub closed spec fn wf(&self) -> bool {
        &&& self.store.wf()
        &&& forall|name: Seq<char>| #[trigger]
            self.store.map().contains_key(name) ==> self.store.map()[name].name@ == name
                && self.store.map()[name].scope == Scope::Global
    }

    /// The slot of each defined name.
    pub closed spec fn symbols(&self) -> Map<Seq<char>, u16> {
        self.store.map().map_values(|s: Symbol| s.index)
    }

    /// The number of definitions so far.
    pub closed spec fn definitions(&self) -> nat {
        self.num_definitions as nat
    }

    /// The table without any name.
    pub fn new() -> (r: SymbolTable)
        ensures
            r.wf(),
            r.symbols() == Map::<Seq<char>, u16>::empty(),
            r.definitions() == 0,
    {
        let r = SymbolTable { store: Dictionary::new(), num_definitions: 0 };
        assert(r.symbols() =~= Map::<Seq<char>, u16>::empty());
        r
    }

    /// Whether a definition can still be made.
    pub fn has_room(&self) -> (r: bool)
        ensures
            r == (self.definitions() < max_definitions()),
    {
        self.num_definitions < u16::MAX
    }

    /// Defines `name` in the next free slot, and returns the slot.
    pub fn define(&mut self, name: String) -> (r: u16)
        requires
            old(self).wf(),
            old(self).definitions() < max_definitions(),
        ensures
            final(self).wf(),
            r == old(self).definitions(),
            final(self).symbols() == old(self).symbols().insert(name@, r),
            final(self).definitions() == old(self).definitions() + 1,
    {
        let index = self.num_definitions;
        let symbol = Symbol { name: name.clone(), scope: Scope::Global, index };
        self.store.set(name, symbol);
        self.num_definitions += 1;
        assert(self.symbols() =~= old(self).symbols().insert(name@, index));
        index
    }

    /// The symbol of `name`, if it is defined.
    pub fn resolve(&self, name: &String) -> (r: Option<&Symbol>)
        requires
            self.wf(),
        ensures
            match r {
                Some(symbol) => {
                    &&& self.symbols().contains_key(name@)
                    &&& self.symbols()[name@] == symbol.index
                    &&& symbol.name@ == name@
                    &&& symbol.scope == Scope::Global
                },
                None => !self.symbols().contains_key(name@),
            },
    {
        self.store.get(name)
    }
}

/// Appends `bytes` to `out`.
fn append_bytes(out: &mut Vec<u8>, bytes: &Vec<u8>)
    ensures
        final(out)@ == old(out)@ + bytes@,
{
    let mut i: usize = 0;
    while i < bytes.len()
        invariant
            i <= bytes.len(),
            out@ == old(out)@ + bytes@.take(i as int),
        decreases bytes.len() - i,
    {
        out.push(bytes[i]);
        assert(out@ =~= old(out)@ + bytes@.take(i + 1));
        i += 1;
    }
    assert(bytes@.take(bytes.len() as int) =~= bytes@);
}

/// The instructions of one function body, or of the program.
#[derive(Debug)]
pub struct CompilationScope {
    pub instructions: Vec<Instruction>,
}

impl CompilationScope {
    /// The scope without instructions.
    pub fn new() -> (r: CompilationScope)
        ensures
            r.instructions@ == Seq::<Instruction>::empty(),
    {
        CompilationScope { instructions: Vec::new() }
    }

    /// The offset of the byte after each instruction.
    fn ends(&self) -> (r: Vec<usize>)
        ensures
            r.len() == self.instructions.len(),
            forall|i: int| 0 <= i < r.len() ==> r[i] == size(self.instructions@, i + 1),
    {
        let mut raw: Vec<u8> = Vec::new();
        let mut ends: Vec<usize> = Vec::new();
        let mut i: usize = 0;
        while i < self.instructions.len()
            invariant
                i <= self.instructions.len(),
                ends.len() == i,
                raw.len() == size(self.instructions@, i as int),
                forall|j: int| 0 <= j < i ==> ends[j] == size(self.instructions@, j + 1),
            decreases self.instructions.len() - i,
        {
            let bytes = self.instructions[i].to_bytes();
            append_bytes(&mut raw, &bytes);
            ends.push(raw.len());
            i += 1;
        }
        ends
    }

    /// The bytes of the scope. The operand of each jump, which was the
    /// number of an instruction, becomes the offset of the byte after that
    /// instruction.
    pub fn emit(self) -> (r: Vec<u8>)
        ensures
            r@ == linearize(self.instructions@),
            r@.len() < capacity(JUMP_WIDTH as nat),
    {
        let ends = self.ends();
        let n = self.instructions.len();
        let total: usize = if n == 0 {
            0
        } else {
            ends[n - 1]
        };
        let mut out: Vec<u8> = Vec::new();
        let mut i: usize = 0;
        while i < n
            invariant
                i <= n,
                n == self.instructions.len(),
                ends.len() == n,
                forall|j: int| 0 <= j < n ==> ends[j] == size(self.instructions@, j + 1),
                total == size(self.instructions@, n as int),
                out@ == linearized(self.instructions@, i as int),
            decreases n - i,
        {
            let bytes = match self.instructions[i] {
                Instruction::Jump(index) => {
                    let target = if index < n {
                        ends[index]
                    } else {
                        total
                    };
                    let mut v: Vec<u8> = Vec::new();
                    v.push(OP_J);
                    assert(v@ =~= seq![OP_J]);
                    crate::bytecode::push_be_bytes(&mut v, target, JUMP_WIDTH);
                    v
                },
                Instruction::JumpNotTruthy(index) => {
                    let target = if index < n {
                        ends[index]
                    } else {
                        total
                    };
                    let mut v: Vec<u8> = Vec::new();
                    v.push(OP_JNT);
                    assert(v@ =~= seq![OP_JNT]);
                    crate::bytecode::push_be_bytes(&mut v, target, JUMP_WIDTH);
                    v
                },
                other => other.to_bytes(),
            };
            assert(bytes@ == resolved(self.instructions@, i as int));
            append_bytes(&mut out, &bytes);
            i += 1;
        }
        proof {
            lemma_capacity();
            assert(out.len() <= usize::MAX);
        }
        out
    }
}

/// Why the compiler refuses a program: the issue, and the token at which
/// it arises.
#[derive(Debug, PartialEq, Eq)]
pub struct CompileError {
    pub issue: CompileIssue,
    pub token: Token,
}

impl View for CompileError {
    type V = CompileErrorView;

    open spec fn view(&self) -> CompileErrorView {
        CompileErrorView { issue: self.issue, token: self.token@ }
    }
}

/// Whether counts of constants and definitions are within their limits.
pub open spec fn within_limits(constants: int, definitions: int) -> bool {
    constants <= max_constants() && definitions <= max_definitions()
}

/// The names that are defined: those of the table, and those that the
/// examination has met.
pub open spec fn known(table: Set<Seq<char>>, met: Map<Seq<char>, u8>) -> Set<Seq<char>> {
    table.union(met.dom())
}

/// What an examination came to, against what the node asks for.
pub ghost struct Asked {
    /// The result of the examination by its definition.
    pub examined: Result<Tally, CompileErrorView>,
    /// Whether the compiler accepts the form of the node.
    pub compilable: bool,
    /// Whether every name in the node is defined where it is compiled.
    pub resolved: bool,
    /// The names that are defined after the node.
    pub names: Set<Seq<char>>,
    /// The number of constants after the node.
    pub constants: int,
    /// The number of definitions after the node.
    pub definitions: int,
}


/// Whether an examination returned what was asked: the counts after the
/// node if the compiler accepts it, every name in it is defined and the
/// counts stay within the limits, and else the first refusal.
pub open spec fn tallied(
    r: Result<(usize, usize), CompileError>,
    names: Set<Seq<char>>,
    asked: Asked,
) -> bool {
    match r {
        Ok((c, d)) => {
            &&& asked.examined == Ok::<Tally, CompileErrorView>(
                Tally { names, constants: c as nat, definitions: d as nat },
            )
            &&& asked.compilable
            &&& asked.resolved
            &&& names == asked.names
            &&& c == asked.constants
            &&& d == asked.definitions
            &&& within_limits(asked.constants, asked.definitions)
        },
        Err(e) => {
            &&& asked.examined == Err::<Tally, CompileErrorView>(e@)
            &&& !(asked.compilable && asked.resolved && within_limits(
                asked.constants,
                asked.definitions,
            ))
        },
    }
}

/// What is asked of the examination of an expression.
pub open spec fn asked_of_expression(e: ExprView, t: Tally) -> Asked {
    Asked {
        examined: examine_expression(e, t),
        compilable: compilable_expression(e),
        resolved: resolved_expression(e, t.names),
        names: names_after_expression(e, t.names),
        constants: (t.constants + constants_in_expression(e)) as int,
        definitions: (t.definitions + definitions_in_expression(e)) as int,
    }
}

/// What is asked of the examination of a statement.
pub open spec fn asked_of_statement(s: StmtView, t: Tally) -> Asked {
    Asked {
        examined: examine_statement(s, t),
        compilable: compilable_statement(s),
        resolved: resolved_statement(s, t.names),
        names: names_after_statement(s, t.names),
        constants: (t.constants + constants_in_statement(s)) as int,
        definitions: (t.definitions + definitions_in_statement(s)) as int,
    }
}

/// What is asked of the examination of statements from the first on.
pub open spec fn asked_of_statements(statements: Seq<StmtView>, t: Tally) -> Asked {
    Asked {
        examined: examine_statements(statements, 0, t),
        compilable: compilable_statements(statements, 0),
        resolved: resolved_statements(statements, 0, t.names),
        names: names_after_statements(statements, 0, t.names),
        constants: (t.constants + constants_in_statements(statements, 0)) as int,
        definitions: (t.definitions + definitions_in_statements(statements, 0)) as int,
    }
}

/// The tally of an examination that stands at the given counts.
pub open spec fn tally_at(
    table: Set<Seq<char>>,
    met: Map<Seq<char>, u8>,
    constants: usize,
    definitions: usize,
) -> Tally {
    Tally { names: known(table, met), constants: constants as nat, definitions: definitions as nat }
}

/// The refusal with the given issue at a copy of the token.
fn refuse<T>(issue: CompileIssue, token: &Token) -> (r: Result<T, CompileError>)
    ensures
        r is Err,
        r->Err_0@ == (CompileErrorView { issue, token: token@ }),
{
    Err(CompileError { issue, token: token.clone() })
}

/// One more constant, if the pool has room for it.
fn one_more_constant(constants: usize, definitions: usize, token: &Token) -> (r: Result<
    (usize, usize),
    CompileError,
>)
    requires
        within_limits(constants as int, definitions as int),
    ensures
        match r {
            Ok((c, d)) => c == constants + 1 && d == definitions && constants < max_constants(),
            Err(e) => constants >= max_constants() && e@ == (CompileErrorView {
                issue: CompileIssue::TooManyConstants,
                token: token@,
            }),
        },
{
    if constants < 0x10000 {
        Ok((constants + 1, definitions))
    } else {
        refuse(CompileIssue::TooManyConstants, token)
    }
}

/// Whether a name is defined.
fn is_known(table: &SymbolTable, met: &Dictionary<u8>, name: &String) -> (r: bool)
    requires
        table.wf(),
        met.wf(),
    ensures
        r == known(table.symbols().dom(), met.map()).contains(name@),
{
    table.resolve(name).is_some() || met.get(name).is_some()
}

/// Examines an expression: adds what it asks for to the counts and the
/// names, or finds the first reason for which the compiler refuses it.
fn tally_expression(
    e: &ExpressionNode,
    table: &SymbolTable,
    met: &mut Dictionary<u8>,
    constants: usize,
    definitions: usize,
) -> (r: Result<(usize, usize), CompileError>)
    requires
        table.wf(),
        old(met).wf(),
        within_limits(constants as int, definitions as int),
    ensures
        final(met).wf(),
        tallied(
            r,
            known(table.symbols().dom(), final(met).map()),
            asked_of_expression(
                e@,
                tally_at(table.symbols().dom(), old(met).map(), constants, definitions),
            ),
        ),
    decreases e, 1nat,
{
    match e {
        ExpressionNode::Ident(token) => match &token.kind {
            TokenType::Ident(name) => if is_known(table, met, name) {
                Ok((constants, definitions))
            } else {
                refuse(CompileIssue::UnresolvedIdentifier, token)
            },
            _ => refuse(CompileIssue::ExpectedIdentifier, token),
        },
        ExpressionNode::Int(token) => match &token.kind {
            TokenType::Int(digits) => match parse_integer_text(digits.as_str()) {
                Ok(_) => one_more_constant(constants, definitions, token),
                Err(_) => refuse(CompileIssue::InvalidInteger, token),
            },
            _ => refuse(CompileIssue::InvalidInteger, token),
        },
        ExpressionNode::Bool(token) => match token.kind {
            TokenType::True => one_more_constant(constants, definitions, token),
            TokenType::False => one_more_constant(constants, definitions, token),
            _ => refuse(CompileIssue::ExpectedBoolean, token),
        },
        ExpressionNode::UnaryOperator(operator, operand) => match operator.kind {
            TokenType::Bang | TokenType::Minus | TokenType::Plus => tally_expression(
                operand,
                table,
                met,
                constants,
                definitions,
            ),
            _ => refuse(CompileIssue::InvalidOperator, operator),
        },
        ExpressionNode::BinaryOperator(operator, left, right) => match operator.kind {
            TokenType::Plus
            | TokenType::Minus
            | TokenType::Asterisk
            | TokenType::Slash
            | TokenType::Eq
            | TokenType::NotEq
            | TokenType::GT
            | TokenType::LT => match tally_expression(left, table, met, constants, definitions) {
                Ok((c, d)) => tally_expression(right, table, met, c, d),
                Err(e) => Err(e),
            },
            _ => refuse(CompileIssue::InvalidOperator, operator),
        },
        ExpressionNode::Block(stmts) => {
            assert(decreases_to!(*e => e->Block_0));
            tally_statements(stmts, table, met, constants, definitions)
        },
        ExpressionNode::If(_, _, _, _) => tally_if(e, table, met, constants, definitions),
        ExpressionNode::Function(token, _, body) => {
            assert(decreases_to!(*e => e->Function_2));
            assert(decreases_to!(e->Function_2 => e->Function_2.statements));
            match tally_statements(&body.statements, table, met, constants, definitions) {
                Ok((c, d)) => one_more_constant(c, d, token),
                Err(e) => Err(e),
            }
        },
        ExpressionNode::FunctionCall(site, func, args) => {
            if args.len() == 0 {
                assert(view_expressions(args@).len() == 0);
                tally_expression(func, table, met, constants, definitions)
            } else {
                assert(view_expressions(args@).len() > 0);
                refuse(CompileIssue::CallWithArguments, site)
            }
        },
    }
}

/// Examines an `if`.
fn tally_if(
    e: &ExpressionNode,
    table: &SymbolTable,
    met: &mut Dictionary<u8>,
    constants: usize,
    definitions: usize,
) -> (r: Result<(usize, usize), CompileError>)
    requires
        e is If,
        table.wf(),
        old(met).wf(),
        within_limits(constants as int, definitions as int),
    ensures
        final(met).wf(),
        tallied(
            r,
            known(table.symbols().dom(), final(met).map()),
            asked_of_expression(
                e@,
                tally_at(table.symbols().dom(), old(met).map(), constants, definitions),
            ),
        ),
    decreases e, 0nat,
{
    match e {
        ExpressionNode::If(_, cond, action, alternate) => {
            let (c, d) = match tally_expression(cond, table, met, constants, definitions) {
                Ok(counts) => counts,
                Err(e) => {
                    return Err(e);
                },
            };
            assert(decreases_to!(*e => e->If_2));
            assert(decreases_to!(e->If_2 => e->If_2.statements));
            let (c, d) = match tally_statements(&action.statements, table, met, c, d) {
                Ok(counts) => counts,
                Err(e) => {
                    return Err(e);
                },
            };
            match alternate {
                Some(alternate) => {
                    assert(decreases_to!(*e => e->If_3));
                    assert(decreases_to!(e->If_3 => e->If_3->Some_0));
                    assert(decreases_to!(e->If_3->Some_0 => e->If_3->Some_0.statements));
                    tally_statements(&alternate.statements, table, met, c, d)
                },
                None => Ok((c, d)),
            }
        },
        _ => Ok((constants, definitions)),
    }
}

/// Examines a statement.
fn tally_statement(
    s: &StatementNode,
    table: &SymbolTable,
    met: &mut Dictionary<u8>,
    constants: usize,
    definitions: usize,
) -> (r: Result<(usize, usize), CompileError>)
    requires
        table.wf(),
        old(met).wf(),
        within_limits(constants as int, definitions as int),
    ensures
        final(met).wf(),
        tallied(
            r,
            known(table.symbols().dom(), final(met).map()),
            asked_of_statement(
                s@,
                tally_at(table.symbols().dom(), old(met).map(), constants, definitions),
            ),
        ),
    decreases s, 0nat,
{
    match s {
        StatementNode::Let(_, ident, expr) => match &ident.0.kind {
            TokenType::Ident(name) => match tally_expression(
                expr,
                table,
                met,
                constants,
                definitions,
            ) {
                Ok((c, d)) => if d < 0xffff {
                    let ghost before = known(table.symbols().dom(), met.map());
                    met.set(name.clone(), 0);
                    assert(known(table.symbols().dom(), met.map()) =~= before.insert(name@));
                    Ok((c, d + 1))
                } else {
                    refuse(CompileIssue::TooManyDefinitions, &ident.0)
                },
                Err(e) => Err(e),
            },
            _ => refuse(CompileIssue::ExpectedIdentifier, &ident.0),
        },
        StatementNode::Return(_, expr) => tally_expression(
            expr,
            table,
            met,
            constants,
            definitions,
        ),
        StatementNode::Expression(expr) => tally_expression(
            expr,
            table,
            met,
            constants,
            definitions,
        ),
    }
}

/// Examines a list of statements.
fn tally_statements(
    statements: &Vec<StatementNode>,
    table: &SymbolTable,
    met: &mut Dictionary<u8>,
    constants: usize,
    definitions: usize,
) -> (r: Result<(usize, usize), CompileError>)
    requires
        table.wf(),
        old(met).wf(),
        within_limits(constants as int, definitions as int),
    ensures
        final(met).wf(),
        tallied(
            r,
            known(table.symbols().dom(), final(met).map()),
            asked_of_statements(
                view_statements(statements@),
                tally_at(table.symbols().dom(), old(met).map(), constants, definitions),
            ),
        ),
    decreases statements, 0nat,
{
    let ghost all = view_statements(statements@);
    let ghost start = tally_at(table.symbols().dom(), met.map(), constants, definitions);
    let mut c = constants;
    let mut d = definitions;
    let mut i: usize = 0;
    while i < statements.len()
        invariant
            i <= statements.len(),
            all == view_statements(statements@),
            table.wf(),
            met.wf(),
            start == tally_at(table.symbols().dom(), old(met).map(), constants, definitions),
            within_limits(c as int, d as int),
            examine_statements(all, i as nat, tally_at(table.symbols().dom(), met.map(), c, d))
                == examine_statements(all, 0, start),
            compilable_statements(all, 0) == compilable_statements(all, i as nat),
            resolved_statements(all, 0, start.names) == resolved_statements(
                all,
                i as nat,
                known(table.symbols().dom(), met.map()),
            ),
            names_after_statements(all, 0, start.names) == names_after_statements(
                all,
                i as nat,
                known(table.symbols().dom(), met.map()),
            ),
            c + constants_in_statements(all, i as nat) == constants + constants_in_statements(
                all,
                0,
            ),
            d + definitions_in_statements(all, i as nat) == definitions
                + definitions_in_statements(all, 0),
        decreases statements.len() - i,
    {
        assert(decreases_to!(statements => statements[i as int]));
        match tally_statement(&statements[i], table, met, c, d) {
            Ok((c2, d2)) => {
                c = c2;
                d = d2;
            },
            Err(e) => {
                return Err(e);
            },
        }
        i += 1;
    }
    Ok((c, d))
}

/// The compiler. It holds the scopes that are open, the constants and the
/// names defined so far.
#[derive(Debug)]
pub struct Emitter {
    scopes: Vec<CompilationScope>,
    constants: Vec<Object>,
    symbol_table: SymbolTable,
}

impl View for Emitter {
    type V = EmitterView;

    closed spec fn view(&self) -> EmitterView {
        EmitterView {
            scopes: Seq::new(self.scopes.len() as nat, |i: int| self.scopes[i].instructions@),
            constants: view_objects(self.constants@),
            symbols: self.symbol_table.symbols(),
            definitions: self.symbol_table.definitions(),
        }
    }
}

/// Whether a state has a scope open and its counts within their limits.
pub open spec fn well_formed(st: EmitterView) -> bool {
    &&& st.scopes.len() >= 1
    &&& st.constants.len() <= max_constants()
    &&& st.definitions <= max_definitions()
    &&& scopes_in_range(st)
    &&& pool_in_order(st.constants)
}

/// Whether `after` comes from `before` by compiling a node with the given
/// counts, after which the given names are defined.
pub open spec fn compiled(
    before: EmitterView,
    after: EmitterView,
    names: Set<Seq<char>>,
    constants: nat,
    definitions: nat,
) -> bool {
    &&& grown(before, after, constants, definitions)
    &&& after.symbols.dom() == names
}

/// Whether every name in a node is defined where it is compiled.
pub open spec fn resolved_node(node: NodeView, names: Set<Seq<char>>) -> bool {
    match node {
        NodeView::Program(statements) => resolved_statements(statements, 0, names),
        NodeView::Statement(statement) => resolved_statement(statement, names),
        NodeView::Expression(expression) => resolved_expression(expression, names),
    }
}

/// The names that are defined after a node is compiled.
pub open spec fn names_after_node(node: NodeView, names: Set<Seq<char>>) -> Set<Seq<char>> {
    match node {
        NodeView::Program(statements) => names_after_statements(statements, 0, names),
        NodeView::Statement(statement) => names_after_statement(statement, names),
        NodeView::Expression(expression) => names_after_expression(expression, names),
    }
}

impl Emitter {
    /// The invariant of a compiler: a scope is open, and the constants and
    /// the definitions are within their limits.
    pub closed spec fn wf(&self) -> bool {
        &&& self.symbol_table.wf()
        &&& well_formed(self@)
    }

    /// Whether this compiler accepts `program`: the compiler accepts every
    /// node of it, and the constants and definitions that it adds leave the
    /// counts within their limits.
    pub open spec fn accepts(&self, program: Seq<StmtView>) -> bool {
        &&& compilable_statements(program, 0)
        &&& resolved_statements(program, 0, self@.symbols.dom())
        &&& self@.constants.len() + constants_in_statements(program, 0) <= max_constants()
        &&& self@.definitions + definitions_in_statements(program, 0) <= max_definitions()
    }

    /// The tally after `program` from the state of this compiler, or the
    /// first reason for which this compiler refuses it.
    pub open spec fn examine(&self, program: Seq<StmtView>) -> Result<Tally, CompileErrorView> {
        examine_statements(
            program,
            0,
            Tally {
                names: self@.symbols.dom(),
                constants: self@.constants.len(),
                definitions: self@.definitions,
            },
        )
    }

    /// Examines `program`: `Ok` if this compiler accepts it, so that
    /// `compile_program` may be called on it, and else the first reason for
    /// which it does not, with the token at which it arises.
    pub fn check(&self, program: &Program) -> (r: Result<(), CompileError>)
        requires
            self.wf(),
        ensures
            match r {
                Ok(_) => self.accepts(program@) && self.examine(program@) is Ok,
                Err(e) => !self.accepts(program@) && self.examine(program@) == Err::<
                    Tally,
                    CompileErrorView,
                >(e@),
            },
    {
        let definitions: usize = self.symbol_table.num_definitions as usize;
        let mut met: Dictionary<u8> = Dictionary::new();
        assert(known(self@.symbols.dom(), met.map()) =~= self@.symbols.dom());
        match tally_statements(
            &program.statements,
            &self.symbol_table,
            &mut met,
            self.constants.len(),
            definitions,
        ) {
            Ok(_) => Ok(()),
            Err(e) => Err(e),
        }
    }

    /// Whether this compiler accepts `program`, so that `compile_program`
    /// may be called on it.
    pub fn can_compile(&self, program: &Program) -> (r: bool)
        requires
            self.wf(),
        ensures
            r == self.accepts(program@),
    {
        self.check(program).is_ok()
    }

    /// A compiler that has compiled nothing.
    pub fn new() -> (r: Emitter)
        ensures
            r.wf(),
            r@ == initial(),
    {
        let mut scopes: Vec<CompilationScope> = Vec::new();
        scopes.push(CompilationScope::new());
        let r = Emitter { scopes, constants: Vec::new(), symbol_table: SymbolTable::new() };
        assert(r@.scopes =~= initial().scopes);
        assert(r@.constants =~= initial().constants);
        r
    }

    /// Opens a scope.
    fn new_scope(&mut self)
        requires
            old(self).wf(),
        ensures
            final(self).wf(),
            final(self)@ == old(self)@.open_scope(),
    {
        self.scopes.push(CompilationScope::new());
        assert(self@.scopes =~= old(self)@.open_scope().scopes);
        proof {
            lemma_in_range_scopes(old(self)@);
        }
    }

    /// Closes the innermost scope and returns it.
    fn pop_scope(&mut self) -> (r: CompilationScope)
        requires
            old(self).wf(),
            old(self)@.scopes.len() >= 2,
        ensures
            final(self).wf(),
            r.instructions@ == old(self)@.current(),
            final(self)@ == (EmitterView { scopes: old(self)@.scopes.drop_last(), ..old(self)@ }),
    {
        let r = self.scopes.pop().unwrap();
        assert(self@.scopes =~= old(self)@.scopes.drop_last());
        proof {
            lemma_in_range_scopes(old(self)@);
        }
        r
    }

    /// The number of instructions in the innermost scope.
    fn current_len(&self) -> (r: usize)
        requires
            self.wf(),
        ensures
            r == self@.current().len(),
    {
        let last = self.scopes.len() - 1;
        self.scopes[last].instructions.len()
    }

    /// The instructions of the innermost scope.
    fn current_instructions(&mut self) -> (r: &mut Vec<Instruction>)
        requires
            old(self).wf(),
        ensures
            *r == old(self).scopes[old(self).scopes.len() - 1].instructions,
            final(self).scopes.len() == old(self).scopes.len(),
            forall|j: int|
                0 <= j < old(self).scopes.len() - 1 ==> final(self).scopes[j] == old(
                    self,
                ).scopes[j],
            final(self).scopes[old(self).scopes.len() - 1].instructions == *final(r),
            final(self).constants == old(self).constants,
            final(self).symbol_table == old(self).symbol_table,
    {
        let curr_scope_index = self.scopes.len() - 1;
        &mut self.scopes[curr_scope_index].instructions
    }

    /// Appends an instruction to the innermost scope.
    fn push_instruction(&mut self, instr: Instruction)
        requires
            old(self).wf(),
            fits(instr, old(self)@.constants.len()),
        ensures
            final(self).wf(),
            final(self)@ == old(self)@.push(instr),
    {
        self.current_instructions().push(instr);
        assert(self@.scopes =~= old(self)@.push(instr).scopes);
        proof {
            lemma_in_range_push(old(self)@, instr);
        }
    }

    /// Removes the last instruction of the innermost scope, if it has one.
    fn pop_instruction(&mut self)
        requires
            old(self).wf(),
        ensures
            final(self).wf(),
            final(self)@ == if old(self)@.current().len() > 0 {
                old(self)@.with_current(old(self)@.current().drop_last())
            } else {
                old(self)@
            },
    {
        let _ = self.current_instructions().pop();
        proof {
            if old(self)@.current().len() > 0 {
                assert(self@.scopes =~= old(self)@.with_current(
                    old(self)@.current().drop_last(),
                ).scopes);
                lemma_in_range_drop_last(old(self)@);
            } else {
                assert(self@.scopes =~= old(self)@.scopes);
            }
        }
    }

    /// The last instruction of the innermost scope, if it has one.
    fn get_last_instruction(&self) -> (r: Option<Instruction>)
        requires
            self.wf(),
        ensures
            r == if self@.current().len() > 0 {
                Some(self@.current().last())
            } else {
                None
            },
    {
        let last = self.scopes.len() - 1;
        let len = self.scopes[last].instructions.len();
        if len == 0 {
            None
        } else {
            Some(self.scopes[last].instructions[len - 1])
        }
    }

    /// Replaces the instruction at `index` in the innermost scope.
    fn set_instruction(&mut self, index: usize, instr: Instruction)
        requires
            old(self).wf(),
            index < old(self)@.current().len(),
            fits(instr, old(self)@.constants.len()),
        ensures
            final(self).wf(),
            final(self)@ == old(self)@.patch(index as int, instr),
    {
        let instructions = self.current_instructions();
        instructions[index] = instr;
        assert(self@.scopes =~= old(self)@.patch(index as int, instr).scopes);
        proof {
            lemma_in_range_patch(old(self)@, index as int, instr);
        }
    }

    /// Adds a constant to the pool, and the instruction that pushes it to
    /// the innermost scope.
    fn add_constant(&mut self, constant: Object)
        requires
            old(self).wf(),
            old(self)@.constants.len() < max_constants(),
            constant_in_order(constant@, old(self)@.constants.len() + 1),
        ensures
            final(self).wf(),
            final(self)@ == old(self)@.add_constant(constant@),
    {
        self.constants.push(constant);
        assert(view_objects(self.constants@) =~= old(self)@.constants.push(constant@));
        proof {
            lemma_in_range_more_constants(old(self)@, constant@);
            lemma_pool_with(old(self)@.constants, constant@);
        }
        let index = (self.constants.len() - 1) as u16;
        self.push_instruction(Instruction::Constant(index));
    }

    /// Removes the last instruction of the innermost scope if it is `Pop`.
    fn elide_pop(&mut self)
        requires
            old(self).wf(),
        ensures
            final(self).wf(),
            final(self)@ == old(self)@.without_trailing_pop(),
    {
        if let Some(Instruction::Pop) = self.get_last_instruction() {
            self.pop_instruction();
        }
    }

    /// Ends the innermost scope with a return.
    fn end_with_return(&mut self)
        requires
            old(self).wf(),
        ensures
            final(self).wf(),
            final(self)@ == old(self)@.with_return(),
    {
        match self.get_last_instruction() {
            Some(Instruction::Pop) => {
                self.pop_instruction();
                self.push_instruction(Instruction::ReturnValue);
            },
            Some(Instruction::ReturnValue) => {},
            _ => {
                self.push_instruction(Instruction::Return);
            },
        }
    }

    /// Compiles a program that this compiler accepts; `check` and
    /// `can_compile` say whether it does.
    pub fn compile_program(&mut self, prog: Program)
        requires
            old(self).wf(),
            old(self).accepts(prog@),
        ensures
            final(self).wf(),
            final(self)@ == compilation::compile_statements(prog@, 0, old(self)@),
            compiled(
                old(self)@,
                final(self)@,
                names_after_statements(prog@, 0, old(self)@.symbols.dom()),
                constants_in_statements(prog@, 0),
                definitions_in_statements(prog@, 0),
            ),
            final(self)@.current().len() <= usize::MAX,
    {
        let prog = Node::Program(prog);
        self.compile(&prog);
        let _ = self.current_len();
    }

    /// Compiles a program if this compiler accepts it, and else leaves the
    /// compiler as it is and returns the first reason for which it does
    /// not: a name that is not defined, for one, is an error here.
    pub fn try_compile_program(&mut self, prog: Program) -> (r: Result<(), CompileError>)
        requires
            old(self).wf(),
        ensures
            final(self).wf(),
            match r {
                Ok(_) => {
                    &&& old(self).accepts(prog@)
                    &&& final(self)@ == compilation::compile_statements(prog@, 0, old(self)@)
                    &&& compiled(
                        old(self)@,
                        final(self)@,
                        names_after_statements(prog@, 0, old(self)@.symbols.dom()),
                        constants_in_statements(prog@, 0),
                        definitions_in_statements(prog@, 0),
                    )
                },
                Err(e) => {
                    &&& !old(self).accepts(prog@)
                    &&& old(self).examine(prog@) == Err::<Tally, CompileErrorView>(e@)
                    &&& final(self)@ == old(self)@
                },
            },
    {
        match self.check(&prog) {
            Ok(_) => {
                self.compile_program(prog);
                Ok(())
            },
            Err(e) => Err(e),
        }
    }

    /// Compiles a node.
    fn compile(&mut self, root: &Node)
        requires
            old(self).wf(),
            compilable_node(root@),
            resolved_node(root@, old(self)@.symbols.dom()),
            has_room(old(self)@, constants_in_node(root@), definitions_in_node(root@)),
        ensures
            final(self).wf(),
            final(self)@ == compilation::compile_node(root@, old(self)@),
            compiled(
                old(self)@,
                final(self)@,
                names_after_node(root@, old(self)@.symbols.dom()),
                constants_in_node(root@),
                definitions_in_node(root@),
            ),
    {
        match root {
            Node::Program(prog) => {
                self.compile_block(&prog.statements);
            },
            Node::Statement(stmt) => {
                self.compile_statement(stmt);
            },
            Node::Expression(expr) => {
                self.compile_expression(expr);
                self.push_operator(
                    Instruction::Pop,
                    Ghost(old(self)@),
                    Ghost(constants_in_expression(expr@)),
                    Ghost(definitions_in_expression(expr@)),
                );
            },
        }
    }

    /// Compiles the statements of a block, one after the other.
    fn compile_block(&mut self, statements: &Vec<StatementNode>)
        requires
            old(self).wf(),
            compilable_statements(view_statements(statements@), 0),
            resolved_statements(view_statements(statements@), 0, old(self)@.symbols.dom()),
            has_room(
                old(self)@,
                constants_in_statements(view_statements(statements@), 0),
                definitions_in_statements(view_statements(statements@), 0),
            ),
        ensures
            final(self).wf(),
            final(self)@ == compilation::compile_statements(
                view_statements(statements@),
                0,
                old(self)@,
            ),
            compiled(
                old(self)@,
                final(self)@,
                names_after_statements(view_statements(statements@), 0, old(self)@.symbols.dom()),
                constants_in_statements(view_statements(statements@), 0),
                definitions_in_statements(view_statements(statements@), 0),
            ),
        decreases statements, 0nat,
    {
        let ghost all = view_statements(statements@);
        let mut i: usize = 0;
        proof {
            lemma_grown_reflexive(self@);
        }
        while i < statements.len()
            invariant
                i <= statements.len(),
                all == view_statements(statements@),
                self.wf(),
                compilable_statements(all, i as nat),
                resolved_statements(all, i as nat, self@.symbols.dom()),
                has_room(
                    old(self)@,
                    constants_in_statements(all, 0),
                    definitions_in_statements(all, 0),
                ),
                self@.extends(old(self)@),
                self@.constants.len() + constants_in_statements(all, i as nat) == old(
                    self,
                )@.constants.len() + constants_in_statements(all, 0),
                self@.definitions + definitions_in_statements(all, i as nat) == old(
                    self,
                )@.definitions + definitions_in_statements(all, 0),
                names_after_statements(all, i as nat, self@.symbols.dom())
                    == names_after_statements(all, 0, old(self)@.symbols.dom()),
                compilation::compile_statements(all, i as nat, self@)
                    == compilation::compile_statements(all, 0, old(self)@),
            decreases statements.len() - i,
        {
            assert(decreases_to!(statements => statements[i as int]));
            let ghost before = self@;
            self.compile_statement(&statements[i]);
            proof {
                lemma_extends_transitive(old(self)@, before, self@);
            }
            i += 1;
        }
    }

    /// Compiles a statement.
    fn compile_statement(&mut self, stmt: &StatementNode)
        requires
            old(self).wf(),
            compilable_statement(stmt@),
            resolved_statement(stmt@, old(self)@.symbols.dom()),
            has_room(old(self)@, constants_in_statement(stmt@), definitions_in_statement(stmt@)),
        ensures
            final(self).wf(),
            final(self)@ == compilation::compile_statement(stmt@, old(self)@),
            compiled(
                old(self)@,
                final(self)@,
                names_after_statement(stmt@, old(self)@.symbols.dom()),
                constants_in_statement(stmt@),
                definitions_in_statement(stmt@),
            ),
        decreases stmt, 0nat,
    {
        match stmt {
            StatementNode::Let(_, ident, expr) => {
                self.compile_expression(expr);
                let ghost compiled = self@;
                let name = ident.get_string();
                let index = self.symbol_table.define(name);
                self.push_instruction(Instruction::SetGlobal(index));
                proof {
                    lemma_grown_define(
                        old(self)@,
                        compiled,
                        name@,
                        constants_in_expression(expr@),
                        definitions_in_expression(expr@),
                    );
                    assert(self@.symbols.dom() =~= compiled.symbols.dom().insert(name@));
                }
            },
            StatementNode::Return(_, expr) => {
                self.compile_expression(expr);
                self.push_operator(
                    Instruction::ReturnValue,
                    Ghost(old(self)@),
                    Ghost(constants_in_expression(expr@)),
                    Ghost(definitions_in_expression(expr@)),
                );
            },
            StatementNode::Expression(expr) => {
                self.compile_expression(expr);
                self.push_operator(
                    Instruction::Pop,
                    Ghost(old(self)@),
                    Ghost(constants_in_expression(expr@)),
                    Ghost(definitions_in_expression(expr@)),
                );
            },
        }
    }

    /// Appends an instruction that is no constant after what was compiled
    /// since the state `before`.
    fn push_operator(&mut self, instr: Instruction, Ghost(before): Ghost<EmitterView>, Ghost(
        constants,
    ): Ghost<nat>, Ghost(definitions): Ghost<nat>)
        requires
            old(self).wf(),
            fits(instr, old(self)@.constants.len()),
            grown(before, old(self)@, constants, definitions),
        ensures
            final(self).wf(),
            final(self)@ == old(self)@.push(instr),
            final(self)@.symbols == old(self)@.symbols,
            grown(before, final(self)@, constants, definitions),
    {
        proof {
            lemma_grown_push(before, self@, instr, constants, definitions);
        }
        self.push_instruction(instr);
    }

    /// Adds a literal to the pool, and the instruction that pushes it.
    fn push_literal(&mut self, constant: Object)
        requires
            old(self).wf(),
            old(self)@.constants.len() < max_constants(),
            constant is Int || constant is Bool,
        ensures
            final(self).wf(),
            final(self)@ == old(self)@.add_constant(constant@),
            final(self)@.symbols == old(self)@.symbols,
            grown(old(self)@, final(self)@, 1, 0),
    {
        proof {
            lemma_grown_reflexive(self@);
            lemma_grown_add_constant(self@, self@, constant@, 0, 0);
        }
        self.add_constant(constant);
    }

    /// Compiles an expression.
    fn compile_expression(&mut self, expr: &ExpressionNode)
        requires
            old(self).wf(),
            compilable_expression(expr@),
            resolved_expression(expr@, old(self)@.symbols.dom()),
            has_room(old(self)@, constants_in_expression(expr@), definitions_in_expression(expr@)),
        ensures
            final(self).wf(),
            final(self)@ == compilation::compile_expression(expr@, old(self)@),
            compiled(
                old(self)@,
                final(self)@,
                names_after_expression(expr@, old(self)@.symbols.dom()),
                constants_in_expression(expr@),
                definitions_in_expression(expr@),
            ),
        decreases expr, 1nat,
    {
        let ghost start = self@;
        let ghost constants = constants_in_expression(expr@);
        let ghost definitions = definitions_in_expression(expr@);
        proof {
            lemma_grown_reflexive(start);
        }
        match expr {
            ExpressionNode::Ident(token) => {
                if let TokenType::Ident(name) = &token.kind {
                    let slot = match self.symbol_table.resolve(name) {
                        Some(sym) => Some(sym.index),
                        None => None,
                    };
                    if let Some(index) = slot {
                        self.push_operator(
                            Instruction::GetGlobal(index),
                            Ghost(start),
                            Ghost(0),
                            Ghost(0),
                        );
                    }
                }
            },
            ExpressionNode::Int(token) => {
                if let TokenType::Int(digits) = &token.kind {
                    if let Ok(value) = parse_integer_text(digits.as_str()) {
                        self.push_literal(Object::Int(value));
                    }
                }
            },
            ExpressionNode::Bool(token) => {
                match token.kind {
                    TokenType::True => {
                        self.push_literal(Object::Bool(true));
                    },
                    TokenType::False => {
                        self.push_literal(Object::Bool(false));
                    },
                    _ => {},
                }
            },
            ExpressionNode::UnaryOperator(operator, operand) => {
                self.compile_expression(operand);
                let instr = match operator.kind {
                    TokenType::Bang => Some(Instruction::Not),
                    TokenType::Minus => Some(Instruction::UnaryMinus),
                    TokenType::Plus => Some(Instruction::UnaryPlus),
                    _ => None,
                };
                if let Some(instr) = instr {
                    self.push_operator(instr, Ghost(start), Ghost(constants), Ghost(definitions));
                }
            },
            ExpressionNode::BinaryOperator(operator, left, right) => {
                self.compile_expression(left);
                let ghost middle = self@;
                self.compile_expression(right);
                proof {
                    lemma_grown_transitive(
                        start,
                        middle,
                        self@,
                        constants_in_expression(left@),
                        definitions_in_expression(left@),
                        constants_in_expression(right@),
                        definitions_in_expression(right@),
                    );
                }
                let instr = match operator.kind {
                    TokenType::Plus => Some(Instruction::Add),
                    TokenType::Minus => Some(Instruction::Sub),
                    TokenType::Asterisk => Some(Instruction::Mul),
                    TokenType::Slash => Some(Instruction::Div),
                    TokenType::Eq => Some(Instruction::Eq),
                    TokenType::NotEq => Some(Instruction::NotEq),
                    TokenType::GT => Some(Instruction::GT),
                    TokenType::LT => Some(Instruction::LT),
                    _ => None,
                };
                if let Some(instr) = instr {
                    self.push_operator(instr, Ghost(start), Ghost(constants), Ghost(definitions));
                }
            },
            ExpressionNode::Block(stmts) => {
                assert(decreases_to!(*expr => expr->Block_0));
                let first = self.current_len();
                self.compile_block(stmts);
                let ghost lowered = self@;
                if self.current_len() > first {
                    self.elide_pop();
                }
                proof {
                    lemma_extends_elided(start, lowered);
                }
            },
            ExpressionNode::If(_, _, _, _) => {
                self.compile_if(expr);
            },
            ExpressionNode::Function(_, _, _) => {
                self.compile_function(expr);
            },
            ExpressionNode::FunctionCall(_, func, _) => {
                self.compile_expression(func);
                self.push_operator(
                    Instruction::Call,
                    Ghost(start),
                    Ghost(constants),
                    Ghost(definitions),
                );
            },
        }
    }

    /// Compiles an `if`.
    fn compile_if(&mut self, expr: &ExpressionNode)
        requires
            expr is If,
            old(self).wf(),
            compilable_expression(expr@),
            resolved_expression(expr@, old(self)@.symbols.dom()),
            has_room(old(self)@, constants_in_expression(expr@), definitions_in_expression(expr@)),
        ensures
            final(self).wf(),
            final(self)@ == compilation::compile_expression(expr@, old(self)@),
            compiled(
                old(self)@,
                final(self)@,
                names_after_expression(expr@, old(self)@.symbols.dom()),
                constants_in_expression(expr@),
                definitions_in_expression(expr@),
            ),
        decreases expr, 0nat,
    {
        let ghost start = self@;
        if let ExpressionNode::If(_, cond, action, alternate) = expr {
            self.compile_expression(cond);
            let ghost s1 = self@;
            self.push_instruction(Instruction::JumpNotTruthy(0));
            let ghost s2 = self@;
            let a_cond = self.current_len();
            assert(decreases_to!(*expr => expr->If_2));
            assert(decreases_to!(expr->If_2 => expr->If_2.statements));
            self.compile_block(&action.statements);
            let ghost s3 = self@;
            self.elide_pop();
            let ghost s4 = self@;
            proof {
                compilation::lemma_extends_push(s1, Instruction::JumpNotTruthy(0));
                lemma_extends_without_trailing_pop(s2, s3);
                lemma_extends_transitive(s1, s2, s4);
            }
            match alternate {
                None => {
                    let a_act = self.current_len();
                    self.set_instruction(a_cond - 1, Instruction::JumpNotTruthy(a_act - 1));
                    proof {
                        lemma_extends_patch(
                            s1,
                            s4,
                            a_cond - 1,
                            Instruction::JumpNotTruthy((a_act - 1) as usize),
                        );
                        lemma_extends_transitive(start, s1, self@);
                    }
                },
                Some(alternate) => {
                    self.push_instruction(Instruction::Jump(0));
                    let ghost s5 = self@;
                    let a_act = self.current_len();
                    self.set_instruction(a_cond - 1, Instruction::JumpNotTruthy(a_act - 1));
                    let ghost s6 = self@;
                    assert(decreases_to!(*expr => expr->If_3));
                    assert(decreases_to!(expr->If_3 => expr->If_3->Some_0));
                    assert(decreases_to!(expr->If_3->Some_0 => expr->If_3->Some_0.statements));
                    proof {
                        compilation::lemma_extends_push(s4, Instruction::Jump(0));
                        lemma_extends_transitive(s1, s4, s5);
                        lemma_extends_patch(
                            s1,
                            s5,
                            a_cond - 1,
                            Instruction::JumpNotTruthy((a_act - 1) as usize),
                        );
                    }
                    self.compile_block(&alternate.statements);
                    let ghost s7 = self@;
                    self.elide_pop();
                    let ghost s8 = self@;
                    let a_alt = self.current_len();
                    proof {
                        lemma_extends_without_trailing_pop(s6, s7);
                        lemma_extends_transitive(s1, s6, s8);
                    }
                    self.set_instruction(a_act - 1, Instruction::Jump(a_alt - 1));
                    proof {
                        lemma_extends_patch(
                            s1,
                            s8,
                            a_act - 1,
                            Instruction::Jump((a_alt - 1) as usize),
                        );
                        lemma_extends_transitive(start, s1, self@);
                    }
                },
            }
        }
    }

    /// Compiles a function literal: its body in a scope of its own, whose
    /// bytes become a constant.
    fn compile_function(&mut self, expr: &ExpressionNode)
        requires
            expr is Function,
            old(self).wf(),
            compilable_expression(expr@),
            resolved_expression(expr@, old(self)@.symbols.dom()),
            has_room(old(self)@, constants_in_expression(expr@), definitions_in_expression(expr@)),
        ensures
            final(self).wf(),
            final(self)@ == compilation::compile_expression(expr@, old(self)@),
            compiled(
                old(self)@,
                final(self)@,
                names_after_expression(expr@, old(self)@.symbols.dom()),
                constants_in_expression(expr@),
                definitions_in_expression(expr@),
            ),
        decreases expr, 0nat,
    {
        let ghost start = self@;
        if let ExpressionNode::Function(_, _, body) = expr {
            self.new_scope();
            let ghost s1 = self@;
            assert(decreases_to!(*expr => expr->Function_2));
            assert(decreases_to!(expr->Function_2 => expr->Function_2.statements));
            self.compile_block(&body.statements);
            let ghost s2 = self@;
            self.end_with_return();
            let ghost s3 = self@;
            proof {
                assert(constants_in_range(s3.scopes[s3.scopes.len() - 1], s3.constants.len()));
            }
            let func = self.pop_scope().emit();
            let ghost s4 = self@;
            proof {
                assert(s1.scopes.drop_last() =~= start.scopes);
                assert(s3.scopes.drop_last() =~= s2.scopes.drop_last());
                assert(s4.scopes == start.scopes);
                assert(grown(
                    start,
                    s4,
                    constants_in_statements(body@, 0),
                    definitions_in_expression(expr@),
                ));
                lemma_grown_add_constant(
                    start,
                    s4,
                    ObjectView::CompiledFunction(func@),
                    constants_in_statements(body@, 0),
                    definitions_in_expression(expr@),
                );
                compilation::lemma_in_range_among_more(
                    s3.current(),
                    s3.constants.len(),
                    s3.constants.len() + 1,
                );
                assert(func@ == linearize(s3.current()));
                assert(constant_in_order(
                    ObjectView::CompiledFunction(func@),
                    s3.constants.len() + 1,
                ));
            }
            self.add_constant(Object::CompiledFunction(func));
        }
    }

    /// Hands out the bytes of the program and the constants. The bytes are
    /// those of the instructions of the program, whose constants are in the
    /// pool; and so are the bytes of every compiled function in the pool.
    pub fn emit(self) -> (r: Bytecode)
        requires
            self.wf(),
        ensures
            r.instructions@ == linearize(self@.current()),
            r.instructions@.len() < capacity(JUMP_WIDTH as nat),
            view_objects(r.constants@) == self@.constants,
            constants_in_range(self@.current(), r.constants@.len()),
            pool_in_order(view_objects(r.constants@)),
            bytecode_consistent(r.instructions@, view_objects(r.constants@)),
    {
        proof {
            let last = self@.scopes.len() - 1;
            assert(constants_in_range(self@.scopes[last], self@.constants.len()));
        }
        let mut scopes = self.scopes;
        let main_scope = scopes.pop().unwrap();
        let instructions = main_scope.emit();
        proof {
            compilation::theorem_bytecode_is_consistent(self@.current(), self@.constants);
        }
        Bytecode { instructions, constants: self.constants }
    }
}

} // verus!
