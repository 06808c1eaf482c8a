//! The stack machine that the instructions are written for, as a function
//! from one state to the next. It is what the compiler's output means.
//!
//! The machine reads the instructions of one scope by their number. It has
//! a stack of values, the values of the globals, and remembers the value
//! that was last discarded: that is the result of a program.

use vstd::prelude::*;
use crate::bytecode::Instruction;
use crate::object::{fitting, ObjectView};

verus! {

/// A state of the machine.
pub ghost struct Machine {
    /// The number of the instruction that is next.
    pub pc: nat,
    pub stack: Seq<ObjectView>,
    /// The value of each global that was set.
    pub globals: Map<u16, ObjectView>,
    /// The value that `Pop` discarded last.
    pub last_popped: ObjectView,
}

/// The state in which a program starts.
pub open spec fn start() -> Machine {
    Machine {
        pc: 0,
        stack: Seq::empty(),
        globals: Map::empty(),
        last_popped: ObjectView::Null,
    }
}

/// What an instruction with one operand makes of it.
pub open spec fn apply_unary(instruction: Instruction, operand: ObjectView) -> Result<
    ObjectView,
    Seq<char>,
> {
    match instruction {
        Instruction::Not => Ok(ObjectView::Bool(!operand.truthy())),
        Instruction::UnaryPlus => match operand {
            ObjectView::Int(i) => Ok(ObjectView::Int(i)),
            _ => Err("Operand for the Unary Operator + should be an integer"@),
        },
        Instruction::UnaryMinus => match operand {
            ObjectView::Int(i) => fitting(-i),
            _ => Err("Operand for the Unary Operator - should be an integer"@),
        },
        _ => Err("Invalid unary operator"@),
    }
}

/// What an instruction with two operands makes of them.
pub open spec fn apply_binary(instruction: Instruction, lhs: ObjectView, rhs: ObjectView)
    -> Result<ObjectView, Seq<char>> {
    match instruction {
        Instruction::Add => lhs.add(rhs),
        Instruction::Sub => lhs.sub(rhs),
        Instruction::Mul => lhs.mul(rhs),
        Instruction::Div => lhs.div(rhs),
        Instruction::Eq => lhs.eq(rhs),
        Instruction::NotEq => lhs.not_eq(rhs),
        Instruction::GT => lhs.gt(rhs),
        Instruction::LT => lhs.lt(rhs),
        _ => Err("Invalid binary operator"@),
    }
}

impl Machine {
    /// This state at the next instruction.
    pub open spec fn advanced(self) -> Machine {
        Machine { pc: self.pc + 1, ..self }
    }

    /// This state at the instruction that stands at `pc`.
    pub open spec fn at(self, pc: nat) -> Machine {
        Machine { pc, ..self }
    }

    /// This state with one more value on the stack.
    pub open spec fn pushed(self, value: ObjectView) -> Machine {
        Machine { stack: self.stack.push(value), ..self }
    }

    /// This state without the `count` values on top of the stack.
    pub open spec fn dropped(self, count: nat) -> Machine {
        Machine { stack: self.stack.take(self.stack.len() - count), ..self }
    }

    /// The value at `depth` below the top of the stack.
    pub open spec fn top(self, depth: nat) -> ObjectView {
        self.stack[self.stack.len() - 1 - depth]
    }
}

/// What an instruction does to a state, or the issue that stops the
/// machine; `next` is where the instruction after it stands, and `jump`
/// where a jump goes on. The instructions of calls stop the machine: it
/// runs one scope.
#[verifier::opaque]
pub open spec fn execute(
    instruction: Instruction,
    constants: Seq<ObjectView>,
    m: Machine,
    next: nat,
    jump: nat,
) -> Result<Machine, Seq<char>> {
    match instruction {
        Instruction::Constant(index) => if index < constants.len() {
            Ok(m.pushed(constants[index as int]).at(next))
        } else {
            Err("Constant out of range"@)
        },
        Instruction::Pop => if m.stack.len() >= 1 {
            Ok(Machine { last_popped: m.top(0), ..m.dropped(1).at(next) })
        } else {
            Err("Stack underflow"@)
        },
        Instruction::Not | Instruction::UnaryPlus | Instruction::UnaryMinus => if m.stack.len()
            >= 1 {
            match apply_unary(instruction, m.top(0)) {
                Ok(value) => Ok(m.dropped(1).pushed(value).at(next)),
                Err(issue) => Err(issue),
            }
        } else {
            Err("Stack underflow"@)
        },
        Instruction::Add
        | Instruction::Sub
        | Instruction::Mul
        | Instruction::Div
        | Instruction::Eq
        | Instruction::NotEq
        | Instruction::GT
        | Instruction::LT => if m.stack.len() >= 2 {
            match apply_binary(instruction, m.top(1), m.top(0)) {
                Ok(value) => Ok(m.dropped(2).pushed(value).at(next)),
                Err(issue) => Err(issue),
            }
        } else {
            Err("Stack underflow"@)
        },
        Instruction::Jump(_) => Ok(m.at(jump)),
        Instruction::JumpNotTruthy(_) => if m.stack.len() >= 1 {
            if m.top(0).truthy() {
                Ok(m.dropped(1).at(next))
            } else {
                Ok(m.dropped(1).at(jump))
            }
        } else {
            Err("Stack underflow"@)
        },
        Instruction::SetGlobal(index) => if m.stack.len() >= 1 {
            Ok(Machine { globals: m.globals.insert(index, m.top(0)), ..m.dropped(1).at(next) })
        } else {
            Err("Stack underflow"@)
        },
        Instruction::GetGlobal(index) => if m.globals.contains_key(index) {
            Ok(m.pushed(m.globals[index]).at(next))
        } else {
            Err("Global not set"@)
        },
        Instruction::ReturnValue | Instruction::Return | Instruction::Call => Err(
            "Unsupported instruction"@,
        ),
    }
}

/// The operand of a jump; 0 for any other instruction.
pub open spec fn jump_operand(instruction: Instruction) -> nat {
    match instruction {
        Instruction::Jump(target) => target as nat,
        Instruction::JumpNotTruthy(target) => target as nat,
        _ => 0,
    }
}

/// The state after one instruction, or the issue that stops the machine. A
/// jump goes on after the instruction whose number it holds.
pub open spec fn step(code: Seq<Instruction>, constants: Seq<ObjectView>, m: Machine) -> Result<
    Machine,
    Seq<char>,
>
    recommends
        m.pc < code.len(),
{
    execute(
        code[m.pc as int],
        constants,
        m,
        m.pc + 1,
        jump_operand(code[m.pc as int]) + 1,
    )
}

/// `Constant` pushes the constant that it names.
pub proof fn lemma_step_constant(code: Seq<Instruction>, constants: Seq<ObjectView>, m: Machine)
    requires
        m.pc < code.len(),
        code[m.pc as int] is Constant,
        code[m.pc as int]->Constant_0 < constants.len(),
    ensures
        step(code, constants, m) == Ok::<Machine, Seq<char>>(
            m.pushed(constants[code[m.pc as int]->Constant_0 as int]).advanced(),
        ),
{
    reveal(execute);
}

/// `GetGlobal` pushes the value of a global that was set.
pub proof fn lemma_step_get_global(code: Seq<Instruction>, constants: Seq<ObjectView>, m: Machine)
    requires
        m.pc < code.len(),
        code[m.pc as int] is GetGlobal,
        m.globals.contains_key(code[m.pc as int]->GetGlobal_0),
    ensures
        step(code, constants, m) == Ok::<Machine, Seq<char>>(
            m.pushed(m.globals[code[m.pc as int]->GetGlobal_0]).advanced(),
        ),
{
    reveal(execute);
}

/// `SetGlobal` takes the value on top of the stack into a global.
pub proof fn lemma_step_set_global(code: Seq<Instruction>, constants: Seq<ObjectView>, m: Machine)
    requires
        m.pc < code.len(),
        code[m.pc as int] is SetGlobal,
        m.stack.len() >= 1,
    ensures
        step(code, constants, m) == Ok::<Machine, Seq<char>>(
            Machine {
                globals: m.globals.insert(code[m.pc as int]->SetGlobal_0, m.top(0)),
                ..m.dropped(1).advanced()
            },
        ),
{
    reveal(execute);
}

/// `Pop` discards the value on top of the stack and remembers it.
pub proof fn lemma_step_pop(code: Seq<Instruction>, constants: Seq<ObjectView>, m: Machine)
    requires
        m.pc < code.len(),
        code[m.pc as int] == Instruction::Pop,
        m.stack.len() >= 1,
    ensures
        step(code, constants, m) == Ok::<Machine, Seq<char>>(
            Machine { last_popped: m.top(0), ..m.dropped(1).advanced() },
        ),
{
    reveal(execute);
}

/// An instruction with one operand replaces the value on top of the stack
/// by what it makes of it, or stops the machine with its issue.
pub proof fn lemma_step_unary(code: Seq<Instruction>, constants: Seq<ObjectView>, m: Machine)
    requires
        m.pc < code.len(),
        code[m.pc as int] == Instruction::Not || code[m.pc as int] == Instruction::UnaryPlus
            || code[m.pc as int] == Instruction::UnaryMinus,
        m.stack.len() >= 1,
    ensures
        step(code, constants, m) == match apply_unary(code[m.pc as int], m.top(0)) {
            Ok(value) => Ok::<Machine, Seq<char>>(m.dropped(1).pushed(value).advanced()),
            Err(issue) => Err(issue),
        },
{
    reveal(execute);
}

/// An instruction with two operands replaces the two values on top of the
/// stack by what it makes of them, or stops the machine with its issue.
pub proof fn lemma_step_binary(code: Seq<Instruction>, constants: Seq<ObjectView>, m: Machine)
    requires
        m.pc < code.len(),
        match code[m.pc as int] {
            Instruction::Add
            | Instruction::Sub
            | Instruction::Mul
            | Instruction::Div
            | Instruction::Eq
            | Instruction::NotEq
            | Instruction::GT
            | Instruction::LT => true,
            _ => false,
        },
        m.stack.len() >= 2,
    ensures
        step(code, constants, m) == match apply_binary(code[m.pc as int], m.top(1), m.top(0)) {
            Ok(value) => Ok::<Machine, Seq<char>>(m.dropped(2).pushed(value).advanced()),
            Err(issue) => Err(issue),
        },
{
    reveal(execute);
}

/// `Jump` goes on after the instruction that it names.
pub proof fn lemma_step_jump(code: Seq<Instruction>, constants: Seq<ObjectView>, m: Machine)
    requires
        m.pc < code.len(),
        code[m.pc as int] is Jump,
    ensures
        step(code, constants, m) == Ok::<Machine, Seq<char>>(
            Machine { pc: code[m.pc as int]->Jump_0 as nat + 1, ..m },
        ),
{
    reveal(execute);
}

/// `JumpNotTruthy` takes the value on top of the stack and jumps if it
/// does not count as true.
pub proof fn lemma_step_jump_not_truthy(
    code: Seq<Instruction>,
    constants: Seq<ObjectView>,
    m: Machine,
)
    requires
        m.pc < code.len(),
        code[m.pc as int] is JumpNotTruthy,
        m.stack.len() >= 1,
    ensures
        step(code, constants, m) == Ok::<Machine, Seq<char>>(
            if m.top(0).truthy() {
                m.dropped(1).advanced()
            } else {
                Machine { pc: code[m.pc as int]->JumpNotTruthy_0 as nat + 1, ..m.dropped(1) }
            },
        ),
{
    reveal(execute);
}

/// The state in which the machine arrives at the instruction with the
/// number `end`, or passes it, or leaves the code; or the issue that stops
/// it on the way. The language has no loops, so a jump only goes forward:
/// one that does not stops the machine.
pub open spec fn run(code: Seq<Instruction>, constants: Seq<ObjectView>, m: Machine, end: nat)
    -> Result<Machine, Seq<char>>
    decreases end - m.pc,
{
    if m.pc >= end || m.pc >= code.len() {
        Ok(m)
    } else {
        match step(code, constants, m) {
            Err(issue) => Err(issue),
            Ok(next) => if next.pc <= m.pc {
                Err("Backward jump"@)
            } else if next.pc >= end {
                Ok(next)
            } else {
                run(code, constants, next, end)
            },
        }
    }
}

/// The result of a program: the state after its last instruction.
pub open spec fn run_program(code: Seq<Instruction>, constants: Seq<ObjectView>) -> Result<
    Machine,
    Seq<char>,
> {
    run(code, constants, start(), code.len())
}

/// A run that arrives exactly at `middle` goes on from there as a run of
/// its own.
pub proof fn lemma_run_splits(
    code: Seq<Instruction>,
    constants: Seq<ObjectView>,
    m: Machine,
    middle: nat,
    end: nat,
)
    requires
        m.pc <= middle <= end,
        middle <= code.len(),
        run(code, constants, m, middle) is Ok,
        run(code, constants, m, middle)->Ok_0.pc == middle,
    ensures
        run(code, constants, m, end) == run(
            code,
            constants,
            run(code, constants, m, middle)->Ok_0,
            end,
        ),
    decreases middle - m.pc,
{
    if m.pc < middle {
        let next = step(code, constants, m)->Ok_0;
        if next.pc < middle {
            lemma_run_splits(code, constants, next, middle, end);
        }
    }
}

/// A run that stops before `middle` stops before any later instruction.
pub proof fn lemma_run_stops(
    code: Seq<Instruction>,
    constants: Seq<ObjectView>,
    m: Machine,
    middle: nat,
    end: nat,
)
    requires
        middle <= end,
        run(code, constants, m, middle) is Err,
    ensures
        run(code, constants, m, end) == run(code, constants, m, middle),
    decreases middle - m.pc,
{
    if m.pc < middle && m.pc < code.len() {
        match step(code, constants, m) {
            Err(_) => {},
            Ok(next) => {
                if next.pc > m.pc && next.pc < middle {
                    lemma_run_stops(code, constants, next, middle, end);
                }
            },
        }
    }
}

/// Whether the run from `m` up to `end` computes `result`: it arrives at
/// `end` with the value on top of the stack that `m` had, and with the
/// globals of `m`; or it stops with the issue.
pub open spec fn computes(
    code: Seq<Instruction>,
    constants: Seq<ObjectView>,
    m: Machine,
    end: nat,
    result: Result<ObjectView, Seq<char>>,
) -> bool {
    let ran = run(code, constants, m, end);
    match result {
        Ok(value) => {
            &&& ran is Ok
            &&& ran->Ok_0.pc == end
            &&& ran->Ok_0.stack == m.stack.push(value)
            &&& ran->Ok_0.globals == m.globals
        },
        Err(issue) => ran == Err::<Machine, Seq<char>>(issue),
    }
}

/// Whether the run from `m` up to `end` finishes with `result`: it arrives
/// at `end` with the stack that `m` had, and the value is the one that it
/// discarded last; or it stops with the issue.
pub open spec fn finishes(
    code: Seq<Instruction>,
    constants: Seq<ObjectView>,
    m: Machine,
    end: nat,
    result: Result<ObjectView, Seq<char>>,
) -> bool {
    let ran = run(code, constants, m, end);
    match result {
        Ok(value) => {
            &&& ran is Ok
            &&& ran->Ok_0.pc == end
            &&& ran->Ok_0.stack == m.stack
            &&& ran->Ok_0.last_popped == value
        },
        Err(issue) => ran == Err::<Machine, Seq<char>>(issue),
    }
}

/// The result of an operation on the result of its operand.
pub open spec fn then_unary(operand: Result<ObjectView, Seq<char>>, instruction: Instruction)
    -> Result<ObjectView, Seq<char>> {
    match operand {
        Ok(value) => apply_unary(instruction, value),
        Err(issue) => Err(issue),
    }
}

/// The result of an operation on the results of its two operands, of which
/// the right one is computed only if the left one is.
pub open spec fn then_binary(
    lhs: Result<ObjectView, Seq<char>>,
    rhs: Result<ObjectView, Seq<char>>,
    instruction: Instruction,
) -> Result<ObjectView, Seq<char>> {
    match lhs {
        Err(issue) => Err(issue),
        Ok(left) => match rhs {
            Err(issue) => Err(issue),
            Ok(right) => apply_binary(instruction, left, right),
        },
    }
}

/// The result of what follows a first part, if that has a result.
pub open spec fn then_next(
    first: Result<ObjectView, Seq<char>>,
    next: Result<ObjectView, Seq<char>>,
) -> Result<ObjectView, Seq<char>> {
    match first {
        Err(issue) => Err(issue),
        Ok(_) => next,
    }
}

/// One instruction that pushes a value computes that value.
pub proof fn lemma_computes_push(
    code: Seq<Instruction>,
    constants: Seq<ObjectView>,
    m: Machine,
    value: ObjectView,
)
    requires
        m.pc < code.len(),
        step(code, constants, m) == Ok::<Machine, Seq<char>>(m.pushed(value).advanced()),
    ensures
        computes(code, constants, m, m.pc + 1, Ok(value)),
{
}

/// The instructions of an operand and then an instruction with one operand
/// compute what the instruction makes of the operand.
pub proof fn lemma_computes_unary(
    code: Seq<Instruction>,
    constants: Seq<ObjectView>,
    m: Machine,
    middle: nat,
    operand: Result<ObjectView, Seq<char>>,
)
    requires
        computes(code, constants, m, middle, operand),
        m.pc <= middle < code.len(),
        code[middle as int] == Instruction::Not || code[middle as int] == Instruction::UnaryPlus
            || code[middle as int] == Instruction::UnaryMinus,
    ensures
        computes(code, constants, m, middle + 1, then_unary(operand, code[middle as int])),
{
    match operand {
        Err(_) => {
            lemma_run_stops(code, constants, m, middle, middle + 1);
        },
        Ok(value) => {
            lemma_run_splits(code, constants, m, middle, middle + 1);
            let m1 = run(code, constants, m, middle)->Ok_0;
            assert(m1.top(0) == value);
            lemma_step_unary(code, constants, m1);
            match apply_unary(code[middle as int], value) {
                Ok(result) => {
                    assert(m1.dropped(1).pushed(result).stack =~= m.stack.push(result));
                },
                Err(_) => {},
            }
        },
    }
}

/// The instructions of two operands and then an instruction with two
/// operands compute what the instruction makes of the operands.
pub proof fn lemma_computes_binary(
    code: Seq<Instruction>,
    constants: Seq<ObjectView>,
    m: Machine,
    first: nat,
    second: nat,
    lhs: Result<ObjectView, Seq<char>>,
    rhs: Result<ObjectView, Seq<char>>,
)
    requires
        computes(code, constants, m, first, lhs),
        lhs is Ok ==> computes(
            code,
            constants,
            run(code, constants, m, first)->Ok_0,
            second,
            rhs,
        ),
        m.pc <= first <= second < code.len(),
        match code[second as int] {
            Instruction::Add
            | Instruction::Sub
            | Instruction::Mul
            | Instruction::Div
            | Instruction::Eq
            | Instruction::NotEq
            | Instruction::GT
            | Instruction::LT => true,
            _ => false,
        },
    ensures
        computes(code, constants, m, second + 1, then_binary(lhs, rhs, code[second as int])),
{
    match lhs {
        Err(_) => {
            lemma_run_stops(code, constants, m, first, second + 1);
        },
        Ok(left) => {
            lemma_run_splits(code, constants, m, first, second + 1);
            let m1 = run(code, constants, m, first)->Ok_0;
            match rhs {
                Err(_) => {
                    lemma_run_stops(code, constants, m1, second, second + 1);
                },
                Ok(right) => {
                    lemma_run_splits(code, constants, m1, second, second + 1);
                    let m2 = run(code, constants, m1, second)->Ok_0;
                    assert(m2.top(0) == right);
                    assert(m2.top(1) == left);
                    lemma_step_binary(code, constants, m2);
                    match apply_binary(code[second as int], left, right) {
                        Ok(result) => {
                            assert(m2.dropped(2).pushed(result).stack =~= m.stack.push(result));
                        },
                        Err(_) => {},
                    }
                },
            }
        },
    }
}

/// The state after the test of a condition: at the next instruction if the
/// condition holds, after the instruction `skip` if not.
pub open spec fn after_test(tested: Machine, skip: nat) -> Machine {
    if tested.top(0).truthy() {
        tested.dropped(1).advanced()
    } else {
        Machine { pc: skip + 1, ..tested.dropped(1) }
    }
}

/// The instructions of a condition, a jump over the consequence if the
/// condition does not hold, the consequence, a jump over the alternative,
/// and the alternative compute what the chosen branch computes.
pub proof fn lemma_computes_choice(
    code: Seq<Instruction>,
    constants: Seq<ObjectView>,
    m: Machine,
    test: nat,
    skip: nat,
    end: nat,
    decision: Result<ObjectView, Seq<char>>,
    chosen: Result<ObjectView, Seq<char>>,
)
    requires
        computes(code, constants, m, test, decision),
        m.pc <= test,
        test < skip,
        skip < end <= code.len(),
        end - 1 <= usize::MAX,
        code[test as int] == Instruction::JumpNotTruthy(skip as usize),
        code[skip as int] == Instruction::Jump((end - 1) as usize),
        decision is Ok ==> computes(
            code,
            constants,
            after_test(run(code, constants, m, test)->Ok_0, skip),
            if decision->Ok_0.truthy() {
                skip
            } else {
                end
            },
            chosen,
        ),
    ensures
        computes(code, constants, m, end, then_next(decision, chosen)),
{
    match decision {
        Err(_) => {
            lemma_run_stops(code, constants, m, test, end);
        },
        Ok(value) => {
            lemma_run_splits(code, constants, m, test, end);
            let m1 = run(code, constants, m, test)->Ok_0;
            assert(m1.top(0) == value);
            assert(m1.dropped(1).stack =~= m.stack);
            lemma_step_jump_not_truthy(code, constants, m1);
            let m2 = after_test(m1, skip);
            assert(step(code, constants, m1) == Ok::<Machine, Seq<char>>(m2));
            assert(run(code, constants, m1, end) == run(code, constants, m2, end));
            if value.truthy() {
                match chosen {
                    Err(_) => {
                        lemma_run_stops(code, constants, m2, skip, end);
                    },
                    Ok(_) => {
                        lemma_run_splits(code, constants, m2, skip, end);
                        let m3 = run(code, constants, m2, skip)->Ok_0;
                        lemma_step_jump(code, constants, m3);
                        assert(step(code, constants, m3) == Ok::<Machine, Seq<char>>(
                            Machine { pc: end, ..m3 },
                        ));
                    },
                }
            }
        },
    }
}

/// The state after `Pop` has discarded the value that was computed last.
pub open spec fn after_pop(computed: Machine) -> Machine {
    Machine { last_popped: computed.top(0), ..computed.dropped(1).advanced() }
}

/// The instructions of a first part, a `Pop`, and the instructions of a
/// second part compute what the second part computes.
pub proof fn lemma_computes_sequence(
    code: Seq<Instruction>,
    constants: Seq<ObjectView>,
    m: Machine,
    middle: nat,
    end: nat,
    first: Result<ObjectView, Seq<char>>,
    next: Result<ObjectView, Seq<char>>,
)
    requires
        computes(code, constants, m, middle, first),
        m.pc <= middle,
        middle + 1 < end <= code.len(),
        code[middle as int] == Instruction::Pop,
        first is Ok ==> computes(
            code,
            constants,
            after_pop(run(code, constants, m, middle)->Ok_0),
            end,
            next,
        ),
    ensures
        computes(code, constants, m, end, then_next(first, next)),
{
    match first {
        Err(_) => {
            lemma_run_stops(code, constants, m, middle, end);
        },
        Ok(value) => {
            lemma_run_splits(code, constants, m, middle, end);
            let m1 = run(code, constants, m, middle)->Ok_0;
            lemma_step_pop(code, constants, m1);
            let m2 = after_pop(m1);
            assert(m2.stack =~= m.stack);
            assert(run(code, constants, m1, end) == run(code, constants, m2, end));
        },
    }
}

/// A run that has nothing to do finishes with the value that was discarded
/// last.
pub proof fn lemma_finishes_at_once(
    code: Seq<Instruction>,
    constants: Seq<ObjectView>,
    m: Machine,
)
    ensures
        finishes(code, constants, m, m.pc, Ok(m.last_popped)),
{
}

/// The instructions of an expression, a `Pop`, and the instructions of the
/// statements after it finish as those statements do.
pub proof fn lemma_finishes_after_expression(
    code: Seq<Instruction>,
    constants: Seq<ObjectView>,
    m: Machine,
    middle: nat,
    end: nat,
    first: Result<ObjectView, Seq<char>>,
    next: Result<ObjectView, Seq<char>>,
)
    requires
        computes(code, constants, m, middle, first),
        m.pc <= middle,
        middle < end <= code.len(),
        code[middle as int] == Instruction::Pop,
        first is Ok ==> finishes(
            code,
            constants,
            after_pop(run(code, constants, m, middle)->Ok_0),
            end,
            next,
        ),
    ensures
        finishes(code, constants, m, end, then_next(first, next)),
        first is Ok ==> run(code, constants, m, end) == run(
            code,
            constants,
            after_pop(run(code, constants, m, middle)->Ok_0),
            end,
        ),
{
    match first {
        Err(_) => {
            lemma_run_stops(code, constants, m, middle, end);
        },
        Ok(value) => {
            lemma_run_splits(code, constants, m, middle, end);
            let m1 = run(code, constants, m, middle)->Ok_0;
            lemma_step_pop(code, constants, m1);
            let m2 = after_pop(m1);
            assert(m2.stack =~= m.stack);
            assert(run(code, constants, m1, end) == run(code, constants, m2, end));
        },
    }
}

/// A run that finishes a first part goes on to finish what follows it.
pub proof fn lemma_finishes_then(
    code: Seq<Instruction>,
    constants: Seq<ObjectView>,
    m: Machine,
    middle: nat,
    end: nat,
    first: Result<ObjectView, Seq<char>>,
    next: Result<ObjectView, Seq<char>>,
)
    requires
        finishes(code, constants, m, middle, first),
        m.pc <= middle <= end,
        middle <= code.len(),
        first is Ok ==> finishes(
            code,
            constants,
            run(code, constants, m, middle)->Ok_0,
            end,
            next,
        ),
    ensures
        finishes(code, constants, m, end, then_next(first, next)),
        first is Ok ==> run(code, constants, m, end) == run(
            code,
            constants,
            run(code, constants, m, middle)->Ok_0,
            end,
        ),
{
    match first {
        Err(_) => {
            lemma_run_stops(code, constants, m, middle, end);
        },
        Ok(_) => {
            lemma_run_splits(code, constants, m, middle, end);
        },
    }
}

/// The state after `SetGlobal` has taken the value that was computed last
/// into the global `slot`.
pub open spec fn after_set(computed: Machine, slot: u16) -> Machine {
    Machine {
        globals: computed.globals.insert(slot, computed.top(0)),
        ..computed.dropped(1).advanced()
    }
}

/// The instructions of an expression, a `SetGlobal`, and the instructions
/// of the statements after it finish as those statements do.
pub proof fn lemma_finishes_after_let(
    code: Seq<Instruction>,
    constants: Seq<ObjectView>,
    m: Machine,
    middle: nat,
    end: nat,
    slot: u16,
    first: Result<ObjectView, Seq<char>>,
    next: Result<ObjectView, Seq<char>>,
)
    requires
        computes(code, constants, m, middle, first),
        m.pc <= middle,
        middle < end <= code.len(),
        code[middle as int] == Instruction::SetGlobal(slot),
        first is Ok ==> finishes(
            code,
            constants,
            after_set(run(code, constants, m, middle)->Ok_0, slot),
            end,
            next,
        ),
    ensures
        finishes(code, constants, m, end, then_next(first, next)),
        first is Ok ==> run(code, constants, m, end) == run(
            code,
            constants,
            after_set(run(code, constants, m, middle)->Ok_0, slot),
            end,
        ),
{
    match first {
        Err(_) => {
            lemma_run_stops(code, constants, m, middle, end);
        },
        Ok(value) => {
            lemma_run_splits(code, constants, m, middle, end);
            let m1 = run(code, constants, m, middle)->Ok_0;
            lemma_step_set_global(code, constants, m1);
            let m2 = after_set(m1, slot);
            assert(m2.stack =~= m.stack);
            assert(run(code, constants, m1, end) == run(code, constants, m2, end));
        },
    }
}

} // verus!