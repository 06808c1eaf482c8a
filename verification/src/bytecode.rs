//! The instructions of the stack machine and their encoding in bytes.

use vstd::prelude::*;
use crate::object::{view_objects, Object, ObjectView};

verus! {

/// The operation code of `Constant`.
pub const OP_CONSTANT: u8 = 1;

/// The operation code of `Pop`.
pub const OP_POP: u8 = 2;

/// The operation code of `Not`.
pub const OP_NOT: u8 = 3;

/// The operation code of `UnaryPlus`.
pub const OP_UPLUS: u8 = 4;

/// The operation code of `UnaryMinus`.
pub const OP_UMIN: u8 = 5;

/// The operation code of `Add`.
pub const OP_ADD: u8 = 6;

/// The operation code of `Sub`.
pub const OP_SUB: u8 = 7;

/// The operation code of `Mul`.
pub const OP_MUL: u8 = 8;

/// The operation code of `Div`.
pub const OP_DIV: u8 = 9;

/// The operation code of `Eq`.
pub const OP_EQ: u8 = 10;

/// The operation code of `NotEq`.
pub const OP_NEQ: u8 = 11;

/// The operation code of `GT`.
pub const OP_GT: u8 = 12;

/// The operation code of `LT`.
pub const OP_LT: u8 = 13;

/// The operation code of `Jump`.
pub const OP_J: u8 = 14;

/// The operation code of `JumpNotTruthy`.
pub const OP_JNT: u8 = 15;

/// The operation code of `SetGlobal`.
pub const OP_SET_GLOBAL: u8 = 16;

/// The operation code of `GetGlobal`.
pub const OP_GET_GLOBAL: u8 = 17;

/// The operation code of `ReturnValue`.
pub const OP_RETURN_VALUE: u8 = 18;

/// The operation code of `Return`.
pub const OP_RETURN: u8 = 19;

/// The operation code of `Call`.
pub const OP_CALL: u8 = 20;

/// The number of bytes of the operand of a jump.
pub const JUMP_WIDTH: usize = 8;

/// An instruction. While a scope is being compiled the operand of a jump is
/// the number of the instruction after which execution goes on; in the bytes
/// that are handed out it is the offset of the byte at which it goes on.
#[derive(Debug, Clone, Copy, PartialEq, Eq)]
pub enum Instruction {
    /// Pushes the constant with the given number.
    Constant(u16),
    Pop,
    Not,
    UnaryPlus,
    UnaryMinus,
    Add,
    Sub,
    Mul,
    Div,
    Eq,
    NotEq,
    GT,
    LT,
    Jump(usize),
    /// Jumps if the value on top of the stack does not count as true.
    JumpNotTruthy(usize),
    SetGlobal(u16),
    GetGlobal(u16),
    ReturnValue,
    Return,
    Call,
}

/// The `width` low bytes of `v`, the most significant first.
pub open spec fn be_bytes(v: nat, width: nat) -> Seq<u8>
    decreases width,
{
    if width == 0 {
        Seq::empty()
    } else {
        be_bytes(v / 256, (width - 1) as nat).push((v % 256) as u8)
    }
}

/// An operation code followed by an operand of `width` bytes.
pub open spec fn with_operand(op: u8, operand: nat, width: nat) -> Seq<u8> {
    seq![op] + be_bytes(operand, width)
}

/// The bytes of an instruction: its operation code, then its operand, if it
/// has one, the most significant byte first. The number of a constant or of
/// a global takes two bytes, the operand of a jump eight.
pub open spec fn encode(i: Instruction) -> Seq<u8> {
    match i {
        Instruction::Constant(index) => with_operand(OP_CONSTANT, index as nat, 2),
        Instruction::Pop => seq![OP_POP],
        Instruction::Not => seq![OP_NOT],
        Instruction::UnaryPlus => seq![OP_UPLUS],
        Instruction::UnaryMinus => seq![OP_UMIN],
        Instruction::Add => seq![OP_ADD],
        Instruction::Sub => seq![OP_SUB],
        Instruction::Mul => seq![OP_MUL],
        Instruction::Div => seq![OP_DIV],
        Instruction::Eq => seq![OP_EQ],
        Instruction::NotEq => seq![OP_NEQ],
        Instruction::GT => seq![OP_GT],
        Instruction::LT => seq![OP_LT],
        Instruction::Jump(loc) => with_operand(OP_J, loc as nat, JUMP_WIDTH as nat),
        Instruction::JumpNotTruthy(loc) => with_operand(OP_JNT, loc as nat, JUMP_WIDTH as nat),
        Instruction::SetGlobal(index) => with_operand(OP_SET_GLOBAL, index as nat, 2),
        Instruction::GetGlobal(index) => with_operand(OP_GET_GLOBAL, index as nat, 2),
        Instruction::ReturnValue => seq![OP_RETURN_VALUE],
        Instruction::Return => seq![OP_RETURN],
        Instruction::Call => seq![OP_CALL],
    }
}

/// `be_bytes` gives as many bytes as it is asked for.
pub proof fn lemma_be_bytes_len(v: nat, width: nat)
    ensures
        be_bytes(v, width).len() == width,
    decreases width,
{
    if width > 0 {
        lemma_be_bytes_len(v / 256, (width - 1) as nat);
    }
}

/// Appends the `width` low bytes of `v` to `out`, the most significant
/// first.
pub fn push_be_bytes(out: &mut Vec<u8>, v: usize, width: usize)
    ensures
        final(out)@ == old(out)@ + be_bytes(v as nat, width as nat),
    decreases width,
{
    if width == 0 {
        assert(out@ =~= old(out)@ + be_bytes(v as nat, 0));
    } else {
        push_be_bytes(out, v / 256, width - 1);
        out.push((v % 256) as u8);
        assert(out@ =~= old(out)@ + be_bytes(v as nat, width as nat));
    }
}

/// The bytes of an operation code and its operand.
fn operation(op: u8, operand: usize, width: usize) -> (r: Vec<u8>)
    ensures
        r@ == with_operand(op, operand as nat, width as nat),
{
    let mut v: Vec<u8> = Vec::new();
    v.push(op);
    assert(v@ =~= seq![op]);
    push_be_bytes(&mut v, operand, width);
    v
}

/// The bytes of an operation code without operand.
fn plain(op: u8) -> (r: Vec<u8>)
    ensures
        r@ == seq![op],
{
    let mut v: Vec<u8> = Vec::new();
    v.push(op);
    assert(v@ =~= seq![op]);
    v
}

impl Instruction {
    /// The bytes of this instruction.
    pub fn to_bytes(&self) -> (r: Vec<u8>)
        ensures
            r@ == encode(*self),
    {
        match self {
            Self::Constant(index) => operation(OP_CONSTANT, *index as usize, 2),
            Self::Pop => plain(OP_POP),
            Self::Not => plain(OP_NOT),
            Self::UnaryPlus => plain(OP_UPLUS),
            Self::UnaryMinus => plain(OP_UMIN),
            Self::Add => plain(OP_ADD),
            Self::Sub => plain(OP_SUB),
            Self::Mul => plain(OP_MUL),
            Self::Div => plain(OP_DIV),
            Self::Eq => plain(OP_EQ),
            Self::NotEq => plain(OP_NEQ),
            Self::GT => plain(OP_GT),
            Self::LT => plain(OP_LT),
            Self::Jump(loc) => operation(OP_J, *loc, JUMP_WIDTH),
            Self::JumpNotTruthy(loc) => operation(OP_JNT, *loc, JUMP_WIDTH),
            Self::SetGlobal(index) => operation(OP_SET_GLOBAL, *index as usize, 2),
            Self::GetGlobal(index) => operation(OP_GET_GLOBAL, *index as usize, 2),
            Self::ReturnValue => plain(OP_RETURN_VALUE),
            Self::Return => plain(OP_RETURN),
            Self::Call => plain(OP_CALL),
        }
    }

    /// Whether this instruction is `other`.
    pub fn is(&self, other: &Instruction) -> (r: bool)
        ensures
            r == (*self == *other),
    {
        match (self, other) {
            (Self::Constant(a), Self::Constant(b)) => *a == *b,
            (Self::Pop, Self::Pop) => true,
            (Self::Not, Self::Not) => true,
            (Self::UnaryPlus, Self::UnaryPlus) => true,
            (Self::UnaryMinus, Self::UnaryMinus) => true,
            (Self::Add, Self::Add) => true,
            (Self::Sub, Self::Sub) => true,
            (Self::Mul, Self::Mul) => true,
            (Self::Div, Self::Div) => true,
            (Self::Eq, Self::Eq) => true,
            (Self::NotEq, Self::NotEq) => true,
            (Self::GT, Self::GT) => true,
            (Self::LT, Self::LT) => true,
            (Self::Jump(a), Self::Jump(b)) => *a == *b,
            (Self::JumpNotTruthy(a), Self::JumpNotTruthy(b)) => *a == *b,
            (Self::SetGlobal(a), Self::SetGlobal(b)) => *a == *b,
            (Self::GetGlobal(a), Self::GetGlobal(b)) => *a == *b,
            (Self::ReturnValue, Self::ReturnValue) => true,
            (Self::Return, Self::Return) => true,
            (Self::Call, Self::Call) => true,
            _ => false,
        }
    }
}

/// The number of bytes of the first `n` instructions.
pub open spec fn size(instructions: Seq<Instruction>, n: int) -> nat
    decreases n,
{
    if n <= 0 {
        0
    } else if n > instructions.len() {
        size(instructions, instructions.len() as int)
    } else {
        size(instructions, n - 1) + encode(instructions[n - 1]).len()
    }
}

/// The offset of the byte after the instruction with the number `index`;
/// past the last instruction, the number of all bytes.
pub open spec fn offset_after(instructions: Seq<Instruction>, index: nat) -> nat {
    size(instructions, index as int + 1)
}

/// The bytes of the instruction with the number `index` as they are handed
/// out: the operand of a jump is the offset of the byte at which execution
/// goes on, any other instruction is as it was.
pub open spec fn resolved(instructions: Seq<Instruction>, index: int) -> Seq<u8> {
    match instructions[index] {
        Instruction::Jump(target) => with_operand(
            OP_J,
            offset_after(instructions, target as nat),
            JUMP_WIDTH as nat,
        ),
        Instruction::JumpNotTruthy(target) => with_operand(
            OP_JNT,
            offset_after(instructions, target as nat),
            JUMP_WIDTH as nat,
        ),
        other => encode(other),
    }
}

/// The bytes of the first `n` instructions as they are handed out.
pub open spec fn linearized(instructions: Seq<Instruction>, n: int) -> Seq<u8>
    decreases n,
{
    if n <= 0 || n > instructions.len() {
        Seq::empty()
    } else {
        linearized(instructions, n - 1) + resolved(instructions, n - 1)
    }
}

/// The bytes of a list of instructions as they are handed out.
pub open spec fn linearize(instructions: Seq<Instruction>) -> Seq<u8> {
    linearized(instructions, instructions.len() as int)
}

/// The number that bytes spell, the most significant first.
pub open spec fn be_value(bytes: Seq<u8>) -> nat
    decreases bytes.len(),
{
    if bytes.len() == 0 {
        0
    } else {
        be_value(bytes.drop_last()) * 256 + bytes.last() as nat
    }
}

/// The number of values that `width` bytes can spell.
pub open spec fn capacity(width: nat) -> nat
    decreases width,
{
    if width == 0 {
        1
    } else {
        capacity((width - 1) as nat) * 256
    }
}

/// Two bytes spell the numbers below 65536, eight bytes those below 2 to
/// the power of 64.
pub proof fn lemma_capacity()
    ensures
        capacity(2) == 0x1_0000,
        capacity(JUMP_WIDTH as nat) == 0x1_0000_0000_0000_0000,
{
    reveal_with_fuel(capacity, 9);
}

/// The bytes of a number spell that number, if they are enough for it.
pub proof fn lemma_be_value(v: nat, width: nat)
    requires
        v < capacity(width),
    ensures
        be_value(be_bytes(v, width)) == v,
        be_bytes(v, width).len() == width,
    decreases width,
{
    lemma_be_bytes_len(v, width);
    if width > 0 {
        lemma_be_value(v / 256, (width - 1) as nat);
        let shorter = be_bytes(v / 256, (width - 1) as nat);
        assert(be_bytes(v, width).drop_last() =~= shorter);
        assert(be_bytes(v, width).last() == (v % 256) as u8);
    }
}

/// An instruction is one, three or nine bytes, of which the first is its
/// operation code; in the bytes that are handed out it is as long as
/// before.
pub proof fn lemma_encode_len(instructions: Seq<Instruction>, index: int)
    requires
        0 <= index < instructions.len(),
    ensures
        encode(instructions[index]).len() == 1 || encode(instructions[index]).len() == 3
            || encode(instructions[index]).len() == 9,
        resolved(instructions, index).len() == encode(instructions[index]).len(),
{
    lemma_be_bytes_len(0, 2);
    match instructions[index] {
        Instruction::Constant(v) => {
            lemma_be_bytes_len(v as nat, 2);
        },
        Instruction::SetGlobal(v) => {
            lemma_be_bytes_len(v as nat, 2);
        },
        Instruction::GetGlobal(v) => {
            lemma_be_bytes_len(v as nat, 2);
        },
        Instruction::Jump(t) => {
            lemma_be_bytes_len(t as nat, 8);
            lemma_be_bytes_len(offset_after(instructions, t as nat), 8);
        },
        Instruction::JumpNotTruthy(t) => {
            lemma_be_bytes_len(t as nat, 8);
            lemma_be_bytes_len(offset_after(instructions, t as nat), 8);
        },
        _ => {},
    }
}

/// More instructions are no fewer bytes.
pub proof fn lemma_size_grows(instructions: Seq<Instruction>, fewer: int, more: int)
    requires
        fewer <= more,
    ensures
        size(instructions, fewer) <= size(instructions, more),
    decreases more,
{
    if fewer < more && more > 0 {
        if more > instructions.len() {
            if fewer > instructions.len() {
                assert(size(instructions, fewer) == size(instructions, instructions.len() as int));
            } else {
                lemma_size_grows(instructions, fewer, instructions.len() as int);
            }
        } else {
            lemma_size_grows(instructions, fewer, more - 1);
        }
    }
}

/// The bytes that are handed out for the first instructions are as many as
/// the instructions have.
pub proof fn lemma_linearized_len(instructions: Seq<Instruction>, n: int)
    requires
        0 <= n <= instructions.len(),
    ensures
        linearized(instructions, n).len() == size(instructions, n),
    decreases n,
{
    if n > 0 {
        lemma_linearized_len(instructions, n - 1);
        lemma_encode_len(instructions, n - 1);
    }
}

/// The bytes that are handed out for the first instructions are where the
/// bytes for more instructions start.
pub proof fn lemma_linearized_prefix(instructions: Seq<Instruction>, fewer: int, more: int)
    requires
        0 <= fewer <= more <= instructions.len(),
    ensures
        size(instructions, fewer) <= size(instructions, more),
        linearized(instructions, more).len() == size(instructions, more),
        linearized(instructions, fewer) == linearized(instructions, more).subrange(
            0,
            size(instructions, fewer) as int,
        ),
    decreases more,
{
    lemma_linearized_len(instructions, more);
    lemma_linearized_len(instructions, fewer);
    lemma_size_grows(instructions, fewer, more);
    if fewer == more {
        assert(linearized(instructions, fewer) =~= linearized(instructions, more).subrange(
            0,
            size(instructions, fewer) as int,
        ));
    } else {
        lemma_linearized_prefix(instructions, fewer, more - 1);
        let shorter = linearized(instructions, more - 1);
        let last = resolved(instructions, more - 1);
        assert(linearized(instructions, more) == shorter + last);
        assert((shorter + last).subrange(0, size(instructions, fewer) as int) =~= shorter.subrange(
            0,
            size(instructions, fewer) as int,
        ));
    }
}

/// Where the bytes of an instruction stand among the bytes that are handed
/// out: after the bytes of the instructions before it.
pub proof fn lemma_instruction_bytes(instructions: Seq<Instruction>, index: int)
    requires
        0 <= index < instructions.len(),
    ensures
        size(instructions, index) + resolved(instructions, index).len() == size(
            instructions,
            index + 1,
        ),
        size(instructions, index + 1) <= linearize(instructions).len(),
        linearize(instructions).subrange(
            size(instructions, index) as int,
            size(instructions, index + 1) as int,
        ) == resolved(instructions, index),
{
    let n = instructions.len() as int;
    let bytes = linearize(instructions);
    lemma_linearized_prefix(instructions, index + 1, n);
    lemma_linearized_len(instructions, index);
    lemma_encode_len(instructions, index);
    let upto = linearized(instructions, index + 1);
    assert(upto == linearized(instructions, index) + resolved(instructions, index));
    assert(upto == bytes.subrange(0, size(instructions, index + 1) as int));
    assert(bytes.subrange(
        size(instructions, index) as int,
        size(instructions, index + 1) as int,
    ) =~= upto.subrange(size(instructions, index) as int, size(instructions, index + 1) as int));
    assert(upto.subrange(size(instructions, index) as int, size(instructions, index + 1) as int)
        =~= resolved(instructions, index));
}

/// Whether `offset` is where an instruction starts among the bytes that are
/// handed out, or where they end.
pub open spec fn is_boundary(instructions: Seq<Instruction>, offset: nat) -> bool {
    exists|k: int| 0 <= k <= instructions.len() && #[trigger] size(instructions, k) == offset
}

/// Whether the jump with the number `index` lands: in the bytes that are
/// handed out its operation code stands where the instruction starts, and
/// its operand spells an offset within those bytes, at which an instruction
/// starts or the bytes end.
pub open spec fn jump_lands(instructions: Seq<Instruction>, index: int) -> bool {
    let bytes = linearize(instructions);
    let at = size(instructions, index) as int;
    let operand = bytes.subrange(at + 1, at + 1 + JUMP_WIDTH as int);
    &&& at + 1 + JUMP_WIDTH as int <= bytes.len()
    &&& bytes[at] == (if instructions[index] is Jump {
        OP_J
    } else {
        OP_JNT
    })
    &&& be_value(operand) <= bytes.len()
    &&& is_boundary(instructions, be_value(operand))
}

/// Every jump lands.
pub proof fn theorem_jumps_land(instructions: Seq<Instruction>, index: int)
    requires
        0 <= index < instructions.len(),
        instructions[index] is Jump || instructions[index] is JumpNotTruthy,
        linearize(instructions).len() < capacity(JUMP_WIDTH as nat),
    ensures
        jump_lands(instructions, index),
{
    let bytes = linearize(instructions);
    let n = instructions.len() as int;
    let at = size(instructions, index) as int;
    let target = match instructions[index] {
        Instruction::Jump(t) => t as nat,
        Instruction::JumpNotTruthy(t) => t as nat,
        _ => 0,
    };
    let offset = offset_after(instructions, target);
    lemma_instruction_bytes(instructions, index);
    lemma_encode_len(instructions, index);
    lemma_linearized_len(instructions, n);
    if target as int + 1 > n {
        assert(size(instructions, target as int + 1) == size(instructions, n));
    } else {
        lemma_size_grows(instructions, target as int + 1, n);
    }
    lemma_be_value(offset, JUMP_WIDTH as nat);
    let whole = resolved(instructions, index);
    assert(whole.len() == 9);
    assert(bytes[at] == whole[0]);
    assert(bytes.subrange(at + 1, at + 9) =~= whole.subrange(1, 9));
    assert(whole.subrange(1, 9) =~= be_bytes(offset, JUMP_WIDTH as nat));
    let k = if target as int + 1 > n {
        n
    } else {
        target as int + 1
    };
    assert(size(instructions, k) == offset);
}

/// What compilation hands out: the instructions of the program, and the
/// constants that they refer to.
#[derive(Debug, PartialEq, Eq)]
pub struct Bytecode {
    pub instructions: Vec<u8>,
    pub constants: Vec<Object>,
}

} // verus!
