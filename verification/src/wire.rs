//! The machine on the bytes that are handed out: it reads each instruction
//! from its bytes and does what the machine on the numbered instructions
//! does.

use vstd::prelude::*;
use crate::bytecode::{
    be_bytes, be_value, capacity, encode, lemma_be_bytes_len, lemma_be_value, lemma_capacity,
    lemma_encode_len,
    lemma_instruction_bytes, lemma_linearized_len, lemma_size_grows, linearize, offset_after,
    resolved, size, with_operand, Instruction, JUMP_WIDTH, OP_ADD, OP_CALL, OP_CONSTANT, OP_DIV,
    OP_EQ, OP_GET_GLOBAL, OP_GT, OP_J, OP_JNT, OP_LT, OP_MUL, OP_NEQ, OP_NOT, OP_POP,
    OP_RETURN, OP_RETURN_VALUE, OP_SET_GLOBAL, OP_SUB, OP_UMIN, OP_UPLUS,
};
use crate::machine::{execute, jump_operand, run, step, Machine};
use crate::object::ObjectView;

verus! {

/// The number of bytes of the operand of an operation code, or `None` for
/// a byte that is no operation code.
pub open spec fn operand_width(op: u8) -> Option<nat> {
    if op == OP_CONSTANT || op == OP_SET_GLOBAL || op == OP_GET_GLOBAL {
        Some(2)
    } else if op == OP_J || op == OP_JNT {
        Some(JUMP_WIDTH as nat)
    } else if 1 <= op <= 20 {
        Some(0)
    } else {
        None
    }
}

/// The instruction of an operation code and its operand.
pub open spec fn instruction_of(op: u8, operand: nat) -> Instruction {
    if op == OP_CONSTANT {
        Instruction::Constant(operand as u16)
    } else if op == OP_POP {
        Instruction::Pop
    } else if op == OP_NOT {
        Instruction::Not
    } else if op == OP_UPLUS {
        Instruction::UnaryPlus
    } else if op == OP_UMIN {
        Instruction::UnaryMinus
    } else if op == OP_ADD {
        Instruction::Add
    } else if op == OP_SUB {
        Instruction::Sub
    } else if op == OP_MUL {
        Instruction::Mul
    } else if op == OP_DIV {
        Instruction::Div
    } else if op == OP_EQ {
        Instruction::Eq
    } else if op == OP_NEQ {
        Instruction::NotEq
    } else if op == OP_GT {
        Instruction::GT
    } else if op == OP_LT {
        Instruction::LT
    } else if op == OP_J {
        Instruction::Jump(0)
    } else if op == OP_JNT {
        Instruction::JumpNotTruthy(0)
    } else if op == OP_SET_GLOBAL {
        Instruction::SetGlobal(operand as u16)
    } else if op == OP_GET_GLOBAL {
        Instruction::GetGlobal(operand as u16)
    } else if op == OP_RETURN_VALUE {
        Instruction::ReturnValue
    } else if op == OP_RETURN {
        Instruction::Return
    } else {
        Instruction::Call
    }
}

/// An instruction as it is read from bytes: what it is, the number that
/// its operand spells, and the number of its bytes. The operand of a jump
/// is kept apart from the instruction.
pub ghost struct Decoded {
    pub instruction: Instruction,
    pub operand: nat,
    pub length: nat,
}

/// The number that the `width` bytes after the byte at `at` spell.
pub open spec fn operand_at(bytes: Seq<u8>, at: nat, width: nat) -> nat {
    be_value(bytes.subrange(at as int + 1, at as int + 1 + width as int))
}

/// The instruction that starts at the byte `at`, or `None` if no whole
/// instruction starts there.
pub open spec fn decode(bytes: Seq<u8>, at: nat) -> Option<Decoded> {
    if at >= bytes.len() {
        None
    } else {
        match operand_width(bytes[at as int]) {
            None => None,
            Some(width) => if at + 1 + width <= bytes.len() {
                Some(
                    Decoded {
                        instruction: instruction_of(
                            bytes[at as int],
                            operand_at(bytes, at, width),
                        ),
                        operand: operand_at(bytes, at, width),
                        length: 1 + width,
                    },
                )
            } else {
                None
            },
        }
    }
}

/// The state after the instruction that starts at the byte where the
/// machine stands, or the issue that stops the machine. A jump goes on at
/// the byte whose offset it holds.
pub open spec fn step_bytes(bytes: Seq<u8>, constants: Seq<ObjectView>, m: Machine) -> Result<
    Machine,
    Seq<char>,
> {
    match decode(bytes, m.pc) {
        None => Err("Malformed instruction"@),
        Some(decoded) => execute(
            decoded.instruction,
            constants,
            m,
            m.pc + decoded.length,
            decoded.operand,
        ),
    }
}

/// The state in which the machine arrives at the byte `end`, or passes it,
/// or leaves the bytes; or the issue that stops it on the way. A jump that
/// does not go forward stops the machine.
pub open spec fn run_bytes(bytes: Seq<u8>, constants: Seq<ObjectView>, m: Machine, end: nat)
    -> Result<Machine, Seq<char>>
    decreases end - m.pc,
{
    if m.pc >= end || m.pc >= bytes.len() {
        Ok(m)
    } else {
        match step_bytes(bytes, constants, m) {
            Err(issue) => Err(issue),
            Ok(next) => if next.pc <= m.pc {
                Err("Backward jump"@)
            } else if next.pc >= end {
                Ok(next)
            } else {
                run_bytes(bytes, constants, next, end)
            },
        }
    }
}

/// The result of a program that is given as bytes: the state after its
/// last byte.
pub open spec fn run_program_bytes(bytes: Seq<u8>, constants: Seq<ObjectView>) -> Result<
    Machine,
    Seq<char>,
> {
    run_bytes(bytes, constants, crate::machine::start(), bytes.len())
}

/// More instructions are more bytes.
pub proof fn lemma_size_strict(instructions: Seq<Instruction>, fewer: int, more: int)
    requires
        0 <= fewer < more <= instructions.len(),
    ensures
        size(instructions, fewer) < size(instructions, more),
{
    lemma_size_grows(instructions, fewer, more - 1);
    lemma_encode_len(instructions, more - 1);
}

/// What an operation code and an operand are read as.
pub proof fn lemma_read(bytes: Seq<u8>, at: nat, op: u8, operand: nat, width: nat)
    requires
        at + 1 + width <= bytes.len(),
        bytes.subrange(at as int, at as int + 1 + width as int) == with_operand(op, operand, width),
        operand < capacity(width),
        operand_width(op) == Some(width),
    ensures
        bytes[at as int] == op,
        operand_at(bytes, at, width) == operand,
        decode(bytes, at) == Some(
            Decoded { instruction: instruction_of(op, operand), operand, length: 1 + width },
        ),
{
    lemma_be_value(operand, width);
    let part = bytes.subrange(at as int, at as int + 1 + width as int);
    assert(part[0] == op);
    assert(bytes[at as int] == part[0]);
    assert(bytes.subrange(at as int + 1, at as int + 1 + width as int) =~= part.subrange(
        1,
        1 + width as int,
    ));
    assert(part.subrange(1, 1 + width as int) =~= be_bytes(operand, width));
}

/// What an operation code without operand is read as.
pub proof fn lemma_read_plain(bytes: Seq<u8>, at: nat, op: u8)
    requires
        at + 1 <= bytes.len(),
        bytes.subrange(at as int, at as int + 1) == seq![op],
        operand_width(op) == Some(0nat),
    ensures
        bytes[at as int] == op,
        decode(bytes, at) == Some(
            Decoded { instruction: instruction_of(op, 0), operand: 0, length: 1 },
        ),
{
    let part = bytes.subrange(at as int, at as int + 1);
    assert(part[0] == op);
    assert(bytes[at as int] == part[0]);
    assert(bytes.subrange(at as int + 1, at as int + 1) =~= Seq::<u8>::empty());
}

/// Whether two instructions are the same but for the operand of a jump.
pub open spec fn same_operation(a: Instruction, b: Instruction) -> bool {
    match (a, b) {
        (Instruction::Jump(_), Instruction::Jump(_)) => true,
        (Instruction::JumpNotTruthy(_), Instruction::JumpNotTruthy(_)) => true,
        _ => a == b,
    }
}

/// Among the bytes that are handed out, each instruction is read as what
/// it was, with the offset of a byte in place of the number of an
/// instruction as the operand of a jump.
pub proof fn lemma_decode(instructions: Seq<Instruction>, index: int)
    requires
        0 <= index < instructions.len(),
        linearize(instructions).len() < capacity(JUMP_WIDTH as nat),
    ensures
        decode(linearize(instructions), size(instructions, index)) is Some,
        same_operation(
            decode(linearize(instructions), size(instructions, index))->Some_0.instruction,
            instructions[index],
        ),
        size(instructions, index) + decode(
            linearize(instructions),
            size(instructions, index),
        )->Some_0.length == size(instructions, index + 1),
        instructions[index] is Jump || instructions[index] is JumpNotTruthy ==> decode(
            linearize(instructions),
            size(instructions, index),
        )->Some_0.operand == size(instructions, jump_operand(instructions[index]) as int + 1),
{
    let bytes = linearize(instructions);
    let at = size(instructions, index);
    let n = instructions.len() as int;
    lemma_instruction_bytes(instructions, index);
    lemma_encode_len(instructions, index);
    lemma_capacity();
    lemma_linearized_len(instructions, n);
    match instructions[index] {
        Instruction::Constant(v) => {
            lemma_be_bytes_len(v as nat, 2);
            lemma_read(bytes, at, OP_CONSTANT, v as nat, 2);
        },
        Instruction::SetGlobal(v) => {
            lemma_be_bytes_len(v as nat, 2);
            lemma_read(bytes, at, OP_SET_GLOBAL, v as nat, 2);
        },
        Instruction::GetGlobal(v) => {
            lemma_be_bytes_len(v as nat, 2);
            lemma_read(bytes, at, OP_GET_GLOBAL, v as nat, 2);
        },
        Instruction::Jump(t) => {
            let target = t as int + 1;
            if target > n {
                assert(size(instructions, target) == size(instructions, n));
            } else {
                lemma_size_grows(instructions, target, n);
            }
            lemma_be_bytes_len(offset_after(instructions, t as nat), JUMP_WIDTH as nat);
            lemma_read(
                bytes,
                at,
                OP_J,
                offset_after(instructions, t as nat),
                JUMP_WIDTH as nat,
            );
        },
        Instruction::JumpNotTruthy(t) => {
            let target = t as int + 1;
            if target > n {
                assert(size(instructions, target) == size(instructions, n));
            } else {
                lemma_size_grows(instructions, target, n);
            }
            lemma_be_bytes_len(offset_after(instructions, t as nat), JUMP_WIDTH as nat);
            lemma_read(
                bytes,
                at,
                OP_JNT,
                offset_after(instructions, t as nat),
                JUMP_WIDTH as nat,
            );
        },
        Instruction::Pop => {
            lemma_read_plain(bytes, at, OP_POP);
        },
        Instruction::Not => {
            lemma_read_plain(bytes, at, OP_NOT);
        },
        Instruction::UnaryPlus => {
            lemma_read_plain(bytes, at, OP_UPLUS);
        },
        Instruction::UnaryMinus => {
            lemma_read_plain(bytes, at, OP_UMIN);
        },
        Instruction::Add => {
            lemma_read_plain(bytes, at, OP_ADD);
        },
        Instruction::Sub => {
            lemma_read_plain(bytes, at, OP_SUB);
        },
        Instruction::Mul => {
            lemma_read_plain(bytes, at, OP_MUL);
        },
        Instruction::Div => {
            lemma_read_plain(bytes, at, OP_DIV);
        },
        Instruction::Eq => {
            lemma_read_plain(bytes, at, OP_EQ);
        },
        Instruction::NotEq => {
            lemma_read_plain(bytes, at, OP_NEQ);
        },
        Instruction::GT => {
            lemma_read_plain(bytes, at, OP_GT);
        },
        Instruction::LT => {
            lemma_read_plain(bytes, at, OP_LT);
        },
        Instruction::ReturnValue => {
            lemma_read_plain(bytes, at, OP_RETURN_VALUE);
        },
        Instruction::Return => {
            lemma_read_plain(bytes, at, OP_RETURN);
        },
        Instruction::Call => {
            lemma_read_plain(bytes, at, OP_CALL);
        },
    }
}

/// The state of the machine on the bytes that stands for a state of the
/// machine on the numbered instructions: it stands at the first byte of
/// the instruction at which that stands.
pub open spec fn on_bytes(instructions: Seq<Instruction>, m: Machine) -> Machine {
    m.at(size(instructions, m.pc as int))
}

/// What an instruction does depends on where the machine stands only in
/// where it goes on.
pub proof fn lemma_execute_elsewhere(
    instruction: Instruction,
    read: Instruction,
    constants: Seq<ObjectView>,
    m: Machine,
    next: nat,
    jump: nat,
    pc: nat,
    next_byte: nat,
    jump_byte: nat,
)
    requires
        same_operation(read, instruction),
        next == jump ==> next_byte == jump_byte,
    ensures
        match execute(instruction, constants, m, next, jump) {
            Ok(after) => {
                &&& after.pc == next || after.pc == jump
                &&& execute(read, constants, m.at(pc), next_byte, jump_byte) == Ok::<
                    Machine,
                    Seq<char>,
                >(
                    after.at(
                        if after.pc == next {
                            next_byte
                        } else {
                            jump_byte
                        },
                    ),
                )
            },
            Err(issue) => execute(read, constants, m.at(pc), next_byte, jump_byte) == Err::<
                Machine,
                Seq<char>,
            >(issue),
        },
{
    reveal(execute);
}

/// One step on the bytes is one step on the numbered instructions.
pub proof fn lemma_step_on_bytes(
    instructions: Seq<Instruction>,
    constants: Seq<ObjectView>,
    m: Machine,
)
    requires
        m.pc < instructions.len(),
        linearize(instructions).len() < capacity(JUMP_WIDTH as nat),
    ensures
        match step(instructions, constants, m) {
            Ok(after) => step_bytes(linearize(instructions), constants, on_bytes(instructions, m))
                == Ok::<Machine, Seq<char>>(on_bytes(instructions, after)),
            Err(issue) => step_bytes(
                linearize(instructions),
                constants,
                on_bytes(instructions, m),
            ) == Err::<Machine, Seq<char>>(issue),
        },
{
    let bytes = linearize(instructions);
    let k = m.pc as int;
    let instruction = instructions[k];
    lemma_decode(instructions, k);
    let decoded = decode(bytes, size(instructions, k))->Some_0;
    let jump = jump_operand(instruction) + 1;
    let jump_byte = if instruction is Jump || instruction is JumpNotTruthy {
        decoded.operand
    } else {
        size(instructions, jump as int)
    };
    lemma_execute_elsewhere(
        instruction,
        decoded.instruction,
        constants,
        m,
        (k + 1) as nat,
        jump,
        size(instructions, k),
        size(instructions, k + 1),
        jump_byte,
    );
    lemma_execute_operand_unused(
        decoded.instruction,
        constants,
        on_bytes(instructions, m),
        size(instructions, k + 1),
        decoded.operand,
        jump_byte,
    );
}

/// Where a jump goes on matters to jumps only.
pub proof fn lemma_execute_operand_unused(
    instruction: Instruction,
    constants: Seq<ObjectView>,
    m: Machine,
    next: nat,
    jump: nat,
    other: nat,
)
    requires
        jump == other || !(instruction is Jump || instruction is JumpNotTruthy),
    ensures
        execute(instruction, constants, m, next, jump) == execute(
            instruction,
            constants,
            m,
            next,
            other,
        ),
{
    reveal(execute);
}

/// The bytes that are handed out mean what the numbered instructions
/// mean: the machine on the bytes ends in the state that stands for the
/// state in which the machine on the instructions ends, or stops with the
/// same issue.
pub proof fn theorem_bytes_mean_instructions(
    instructions: Seq<Instruction>,
    constants: Seq<ObjectView>,
)
    requires
        linearize(instructions).len() < capacity(JUMP_WIDTH as nat),
    ensures
        match crate::machine::run_program(instructions, constants) {
            Ok(after) => run_program_bytes(linearize(instructions), constants) == Ok::<
                Machine,
                Seq<char>,
            >(on_bytes(instructions, after)),
            Err(issue) => run_program_bytes(linearize(instructions), constants) == Err::<
                Machine,
                Seq<char>,
            >(issue),
        },
{
    let n = instructions.len();
    lemma_linearized_len(instructions, n as int);
    lemma_run_on_bytes(instructions, constants, crate::machine::start(), n);
    assert(on_bytes(instructions, crate::machine::start()) == crate::machine::start());
}

/// A run on the bytes that are handed out is the run on the numbered
/// instructions: it ends in the state that stands for the state in which
/// that ends, or stops with the same issue.
pub proof fn lemma_run_on_bytes(
    instructions: Seq<Instruction>,
    constants: Seq<ObjectView>,
    m: Machine,
    end: nat,
)
    requires
        end <= instructions.len(),
        linearize(instructions).len() < capacity(JUMP_WIDTH as nat),
    ensures
        match run(instructions, constants, m, end) {
            Ok(after) => run_bytes(
                linearize(instructions),
                constants,
                on_bytes(instructions, m),
                size(instructions, end as int),
            ) == Ok::<Machine, Seq<char>>(on_bytes(instructions, after)),
            Err(issue) => run_bytes(
                linearize(instructions),
                constants,
                on_bytes(instructions, m),
                size(instructions, end as int),
            ) == Err::<Machine, Seq<char>>(issue),
        },
    decreases end - m.pc,
{
    let bytes = linearize(instructions);
    let n = instructions.len() as int;
    lemma_linearized_len(instructions, n);
    if m.pc >= end {
        if m.pc as int > n {
            assert(size(instructions, m.pc as int) == size(instructions, n));
            lemma_size_grows(instructions, end as int, n);
        } else {
            lemma_size_grows(instructions, end as int, m.pc as int);
        }
    } else {
        lemma_size_strict(instructions, m.pc as int, end as int);
        lemma_size_grows(instructions, end as int, n);
        lemma_step_on_bytes(instructions, constants, m);
        match step(instructions, constants, m) {
            Err(_) => {},
            Ok(after) => {
                if after.pc <= m.pc {
                    lemma_size_grows(instructions, after.pc as int, m.pc as int);
                } else {
                    if after.pc as int > n {
                        assert(size(instructions, after.pc as int) == size(instructions, n));
                        lemma_size_strict(instructions, m.pc as int, n);
                    } else {
                        lemma_size_strict(instructions, m.pc as int, after.pc as int);
                    }
                    if after.pc >= end {
                        if after.pc as int > n {
                        } else {
                            lemma_size_grows(instructions, end as int, after.pc as int);
                        }
                    } else {
                        lemma_size_strict(instructions, after.pc as int, end as int);
                        lemma_run_on_bytes(instructions, constants, after, end);
                    }
                }
            },
        }
    }
}

} // verus!
