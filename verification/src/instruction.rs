//! Call-frame instructions and their encoding in bytes.

use crate::error::CfiError;
use crate::reader::{
    lemma_leb128_reads_shrink, take_bytes, take_sleb128, take_u8, take_uint, take_uleb128,
    ByteCursor,
};
use vstd::prelude::*;

verus! {

/// One call-frame instruction. Offsets stand as 64-bit two's-complement
/// numbers; those called factored are yet to be multiplied by an
/// alignment factor.
#[derive(Clone, Debug, PartialEq, Eq)]
pub enum Instruction {
    Nop,
    /// Advance the location by a factored delta.
    AdvanceLoc(u64),
    /// The frame address is a register plus an offset.
    DefCfa(u64, i64),
    /// The frame address is a register plus a factored offset.
    DefCfaSf(u64, i64),
    DefCfaRegister(u64),
    DefCfaOffset(i64),
    /// The offset of the frame address, factored.
    DefCfaOffsetSf(i64),
    DefCfaExpression(Vec<u8>),
    /// A register was saved at a factored offset from the frame address.
    Offset(u64, i64),
    /// A register is the frame address plus a factored offset.
    ValOffset(u64, i64),
    SameValue(u64),
    Undefined(u64),
    Register(u64, u64),
    RememberState,
    RestoreState,
    Restore(u64),
    Expression(u64, Vec<u8>),
    ValExpression(u64, Vec<u8>),
}

/// The mathematical value of an `Instruction`.
pub enum InstructionView {
    Nop,
    AdvanceLoc(u64),
    DefCfa(u64, i64),
    DefCfaSf(u64, i64),
    DefCfaRegister(u64),
    DefCfaOffset(i64),
    DefCfaOffsetSf(i64),
    DefCfaExpression(Seq<u8>),
    Offset(u64, i64),
    ValOffset(u64, i64),
    SameValue(u64),
    Undefined(u64),
    Register(u64, u64),
    RememberState,
    RestoreState,
    Restore(u64),
    Expression(u64, Seq<u8>),
    ValExpression(u64, Seq<u8>),
}

impl View for Instruction {
    type V = InstructionView;

    open spec fn view(&self) -> InstructionView {
        match self {
            Instruction::Nop => InstructionView::Nop,
            Instruction::AdvanceLoc(d) => InstructionView::AdvanceLoc(*d),
            Instruction::DefCfa(r, n) => InstructionView::DefCfa(*r, *n),
            Instruction::DefCfaSf(r, n) => InstructionView::DefCfaSf(*r, *n),
            Instruction::DefCfaRegister(r) => InstructionView::DefCfaRegister(*r),
            Instruction::DefCfaOffset(n) => InstructionView::DefCfaOffset(*n),
            Instruction::DefCfaOffsetSf(n) => InstructionView::DefCfaOffsetSf(*n),
            Instruction::DefCfaExpression(b) => InstructionView::DefCfaExpression(b@),
            Instruction::Offset(r, n) => InstructionView::Offset(*r, *n),
            Instruction::ValOffset(r, n) => InstructionView::ValOffset(*r, *n),
            Instruction::SameValue(r) => InstructionView::SameValue(*r),
            Instruction::Undefined(r) => InstructionView::Undefined(*r),
            Instruction::Register(r, q) => InstructionView::Register(*r, *q),
            Instruction::RememberState => InstructionView::RememberState,
            Instruction::RestoreState => InstructionView::RestoreState,
            Instruction::Restore(r) => InstructionView::Restore(*r),
            Instruction::Expression(r, b) => InstructionView::Expression(*r, b@),
            Instruction::ValExpression(r, b) => InstructionView::ValExpression(*r, b@),
        }
    }
}

/// The signed number with the same 64 bits as `x`.
pub open spec fn as_signed(x: u64) -> i64 {
    if x <= 0x7fff_ffff_ffff_ffff {
        x as i64
    } else {
        (x - 0x1_0000_0000_0000_0000) as i64
    }
}

/// The signed number with the same 64 bits as `x`.
pub fn reinterpret(x: u64) -> (r: i64)
    ensures
        r == as_signed(x),
{
    if x <= 0x7fff_ffff_ffff_ffff {
        x as i64
    } else {
        ((x - 0x8000_0000_0000_0000) as i64) - 0x7fff_ffff_ffff_ffff - 1
    }
}

/// An operand read: any failure to read it is a malformed instruction.
pub open spec fn operand<T>(r: Result<(T, Seq<u8>), CfiError>) -> Result<(T, Seq<u8>), CfiError> {
    match r {
        Ok(v) => Ok(v),
        Err(_) => Err(CfiError::MalformedInstruction),
    }
}

/// A register operand.
pub open spec fn take_reg(s: Seq<u8>) -> Result<(u64, Seq<u8>), CfiError> {
    operand(take_uleb128(s))
}

/// A block operand: an unsigned LEB128 length and that many bytes.
pub open spec fn take_block(s: Seq<u8>) -> Result<(Seq<u8>, Seq<u8>), CfiError> {
    match operand(take_uleb128(s)) {
        Err(e) => Err(e),
        Ok((n, s1)) => operand(take_bytes(s1, n as nat)),
    }
}

/// The instruction of an opcode whose operands are a register and a number.
pub open spec fn with_reg_number(op: u8, r: u64, n: i64) -> InstructionView {
    if op == 0x05 || op == 0x11 {
        InstructionView::Offset(r, n)
    } else if op == 0x0c {
        InstructionView::DefCfa(r, n)
    } else if op == 0x12 {
        InstructionView::DefCfaSf(r, n)
    } else {
        InstructionView::ValOffset(r, n)
    }
}

/// The instruction of an opcode whose one operand is a register.
pub open spec fn with_reg(op: u8, r: u64) -> InstructionView {
    if op == 0x06 {
        InstructionView::Restore(r)
    } else if op == 0x07 {
        InstructionView::Undefined(r)
    } else if op == 0x08 {
        InstructionView::SameValue(r)
    } else {
        InstructionView::DefCfaRegister(r)
    }
}

/// The instruction of a first byte `op` whose two top bits are not zero:
/// they select `advance_loc`, `offset` or `restore`, with an operand in
/// the other six bits.
pub open spec fn packed_instruction(op: u8, s1: Seq<u8>) -> Result<
    (InstructionView, Seq<u8>),
    CfiError,
> {
    let low = (op % 64) as u64;
    if op / 64 == 1 {
        Ok((InstructionView::AdvanceLoc(low), s1))
    } else if op / 64 == 2 {
        match operand(take_uleb128(s1)) {
            Err(e) => Err(e),
            Ok((n, s2)) => Ok((InstructionView::Offset(low, as_signed(n)), s2)),
        }
    } else {
        Ok((InstructionView::Restore(low), s1))
    }
}

/// Whether the first operand of the opcode `op` is a register.
pub open spec fn takes_register(op: u8) -> bool {
    0x05 <= op <= 0x09 || op == 0x0c || op == 0x0d || op == 0x10 || op == 0x11 || op == 0x12
        || op == 0x14 || op == 0x15 || op == 0x16
}

/// The instruction of an opcode whose first operand is the register `r`,
/// read already; `s2` holds the other operands.
pub open spec fn register_instruction(op: u8, r: u64, s2: Seq<u8>) -> Result<
    (InstructionView, Seq<u8>),
    CfiError,
> {
    if op == 0x05 || op == 0x0c || op == 0x14 {
        match operand(take_uleb128(s2)) {
            Err(e) => Err(e),
            Ok((n, s3)) => Ok((with_reg_number(op, r, as_signed(n)), s3)),
        }
    } else if op == 0x11 || op == 0x12 || op == 0x15 {
        match operand(take_sleb128(s2)) {
            Err(e) => Err(e),
            Ok((n, s3)) => Ok((with_reg_number(op, r, n), s3)),
        }
    } else if op == 0x09 {
        match take_reg(s2) {
            Err(e) => Err(e),
            Ok((q, s3)) => Ok((InstructionView::Register(r, q), s3)),
        }
    } else if op == 0x10 || op == 0x16 {
        match take_block(s2) {
            Err(e) => Err(e),
            Ok((b, s3)) => Ok(
                (
                    if op == 0x10 {
                        InstructionView::Expression(r, b)
                    } else {
                        InstructionView::ValExpression(r, b)
                    },
                    s3,
                ),
            ),
        }
    } else {
        Ok((with_reg(op, r), s2))
    }
}

/// The instruction of an opcode with no register operand. An opcode that
/// is not known is malformed.
pub open spec fn plain_instruction(op: u8, s1: Seq<u8>) -> Result<
    (InstructionView, Seq<u8>),
    CfiError,
> {
    if op == 0x00 {
        Ok((InstructionView::Nop, s1))
    } else if op == 0x02 || op == 0x03 || op == 0x04 {
        match operand(take_uint(s1, advance_width(op))) {
            Err(e) => Err(e),
            Ok((d, s2)) => Ok((InstructionView::AdvanceLoc(d as u64), s2)),
        }
    } else if op == 0x0a {
        Ok((InstructionView::RememberState, s1))
    } else if op == 0x0b {
        Ok((InstructionView::RestoreState, s1))
    } else if op == 0x0e {
        match operand(take_uleb128(s1)) {
            Err(e) => Err(e),
            Ok((n, s2)) => Ok((InstructionView::DefCfaOffset(as_signed(n)), s2)),
        }
    } else if op == 0x13 {
        match operand(take_sleb128(s1)) {
            Err(e) => Err(e),
            Ok((n, s2)) => Ok((InstructionView::DefCfaOffsetSf(n), s2)),
        }
    } else if op == 0x0f {
        match take_block(s1) {
            Err(e) => Err(e),
            Ok((b, s2)) => Ok((InstructionView::DefCfaExpression(b), s2)),
        }
    } else {
        Err(CfiError::MalformedInstruction)
    }
}

/// The instruction at the front of `s`, and what follows it. An operand
/// that cannot be read is malformed.
pub open spec fn instruction_at(s: Seq<u8>) -> Result<(InstructionView, Seq<u8>), CfiError> {
    match operand(take_u8(s)) {
        Err(e) => Err(e),
        Ok((op, s1)) => if op >= 64 {
            packed_instruction(op, s1)
        } else if takes_register(op) {
            match take_reg(s1) {
                Err(e) => Err(e),
                Ok((r, s2)) => register_instruction(op, r, s2),
            }
        } else {
            plain_instruction(op, s1)
        },
    }
}

/// The width in bytes of the delta of the opcodes 2, 3 and 4.
pub open spec fn advance_width(op: u8) -> nat {
    if op == 0x02 {
        1
    } else if op == 0x03 {
        2
    } else {
        4
    }
}

/// Every instruction takes at least one byte.
pub proof fn lemma_instruction_consumes(s: Seq<u8>)
    requires
        instruction_at(s) is Ok,
    ensures
        instruction_at(s)->Ok_0.1.len() < s.len(),
{
    let (op, s1) = take_u8(s)->Ok_0;
    lemma_leb128_reads_shrink(s1);
    if op < 64 && takes_register(op) {
        let (r, s2) = take_reg(s1)->Ok_0;
        lemma_leb128_reads_shrink(s2);
        if op == 0x10 || op == 0x16 {
            lemma_leb128_reads_shrink(s2);
        }
    }
}

fn read_reg(reader: &mut ByteCursor) -> (r: Result<u64, CfiError>)
    ensures
        match take_reg(old(reader)@) {
            Err(e) => r == Err::<u64, CfiError>(e),
            Ok((v, rest)) => r == Ok::<u64, CfiError>(v) && final(reader)@ == rest,
        },
        final(reader)@.len() <= old(reader)@.len(),
{
    match reader.read_uleb128() {
        Ok(v) => Ok(v),
        Err(_) => Err(CfiError::MalformedInstruction),
    }
}

fn read_signed(reader: &mut ByteCursor) -> (r: Result<i64, CfiError>)
    ensures
        match operand(take_sleb128(old(reader)@)) {
            Err(e) => r == Err::<i64, CfiError>(e),
            Ok((v, rest)) => r == Ok::<i64, CfiError>(v) && final(reader)@ == rest,
        },
        final(reader)@.len() <= old(reader)@.len(),
{
    match reader.read_sleb128() {
        Ok(v) => Ok(v),
        Err(_) => Err(CfiError::MalformedInstruction),
    }
}

fn read_unsigned(reader: &mut ByteCursor) -> (r: Result<i64, CfiError>)
    ensures
        match operand(take_uleb128(old(reader)@)) {
            Err(e) => r == Err::<i64, CfiError>(e),
            Ok((v, rest)) => r == Ok::<i64, CfiError>(as_signed(v)) && final(reader)@ == rest,
        },
        final(reader)@.len() <= old(reader)@.len(),
{
    match reader.read_uleb128() {
        Ok(v) => Ok(reinterpret(v)),
        Err(_) => Err(CfiError::MalformedInstruction),
    }
}

fn read_block(reader: &mut ByteCursor) -> (r: Result<Vec<u8>, CfiError>)
    ensures
        match take_block(old(reader)@) {
            Err(e) => r == Err::<Vec<u8>, CfiError>(e),
            Ok((b, rest)) => r is Ok && r->Ok_0@ == b && final(reader)@ == rest,
        },
        final(reader)@.len() <= old(reader)@.len(),
{
    let n = match reader.read_uleb128() {
        Ok(v) => v,
        Err(_) => return Err(CfiError::MalformedInstruction),
    };
    match reader.read_bytes(n) {
        Ok(v) => Ok(v),
        Err(_) => Err(CfiError::MalformedInstruction),
    }
}

fn make_with_reg_number(op: u8, r: u64, n: i64) -> (i: Instruction)
    ensures
        i@ == with_reg_number(op, r, n),
{
    if op == 0x05 || op == 0x11 {
        Instruction::Offset(r, n)
    } else if op == 0x0c {
        Instruction::DefCfa(r, n)
    } else if op == 0x12 {
        Instruction::DefCfaSf(r, n)
    } else {
        Instruction::ValOffset(r, n)
    }
}

fn make_with_reg(op: u8, r: u64) -> (i: Instruction)
    ensures
        i@ == with_reg(op, r),
{
    if op == 0x06 {
        Instruction::Restore(r)
    } else if op == 0x07 {
        Instruction::Undefined(r)
    } else if op == 0x08 {
        Instruction::SameValue(r)
    } else {
        Instruction::DefCfaRegister(r)
    }
}

fn read_packed(reader: &mut ByteCursor, op: u8) -> (r: Result<Instruction, CfiError>)
    requires
        op >= 64,
    ensures
        match packed_instruction(op, old(reader)@) {
            Err(e) => r is Err && r->Err_0 == e,
            Ok((i, rest)) => r is Ok && r->Ok_0@ == i && final(reader)@ == rest,
        },
        final(reader)@.len() <= old(reader)@.len(),
{
    let low = (op % 64) as u64;
    if op / 64 == 1 {
        Ok(Instruction::AdvanceLoc(low))
    } else if op / 64 == 2 {
        match read_unsigned(reader) {
            Ok(n) => Ok(Instruction::Offset(low, n)),
            Err(e) => Err(e),
        }
    } else {
        Ok(Instruction::Restore(low))
    }
}

fn read_after_register(reader: &mut ByteCursor, op: u8, r: u64) -> (res: Result<
    Instruction,
    CfiError,
>)
    ensures
        match register_instruction(op, r, old(reader)@) {
            Err(e) => res is Err && res->Err_0 == e,
            Ok((i, rest)) => res is Ok && res->Ok_0@ == i && final(reader)@ == rest,
        },
        final(reader)@.len() <= old(reader)@.len(),
{
    if op == 0x05 || op == 0x0c || op == 0x14 {
        match read_unsigned(reader) {
            Ok(n) => Ok(make_with_reg_number(op, r, n)),
            Err(e) => Err(e),
        }
    } else if op == 0x11 || op == 0x12 || op == 0x15 {
        match read_signed(reader) {
            Ok(n) => Ok(make_with_reg_number(op, r, n)),
            Err(e) => Err(e),
        }
    } else if op == 0x09 {
        match read_reg(reader) {
            Ok(q) => Ok(Instruction::Register(r, q)),
            Err(e) => Err(e),
        }
    } else if op == 0x10 || op == 0x16 {
        match read_block(reader) {
            Ok(b) => if op == 0x10 {
                Ok(Instruction::Expression(r, b))
            } else {
                Ok(Instruction::ValExpression(r, b))
            },
            Err(e) => Err(e),
        }
    } else {
        Ok(make_with_reg(op, r))
    }
}

fn read_plain(reader: &mut ByteCursor, op: u8) -> (r: Result<Instruction, CfiError>)
    ensures
        match plain_instruction(op, old(reader)@) {
            Err(e) => r is Err && r->Err_0 == e,
            Ok((i, rest)) => r is Ok && r->Ok_0@ == i && final(reader)@ == rest,
        },
        final(reader)@.len() <= old(reader)@.len(),
{
    if op == 0x00 {
        Ok(Instruction::Nop)
    } else if op == 0x02 || op == 0x03 || op == 0x04 {
        let width: usize = if op == 0x02 {
            1
        } else if op == 0x03 {
            2
        } else {
            4
        };
        match reader.read_uint(width) {
            Ok(d) => Ok(Instruction::AdvanceLoc(d)),
            Err(_) => Err(CfiError::MalformedInstruction),
        }
    } else if op == 0x0a {
        Ok(Instruction::RememberState)
    } else if op == 0x0b {
        Ok(Instruction::RestoreState)
    } else if op == 0x0e {
        match read_unsigned(reader) {
            Ok(n) => Ok(Instruction::DefCfaOffset(n)),
            Err(e) => Err(e),
        }
    } else if op == 0x13 {
        match read_signed(reader) {
            Ok(n) => Ok(Instruction::DefCfaOffsetSf(n)),
            Err(e) => Err(e),
        }
    } else if op == 0x0f {
        match read_block(reader) {
            Ok(b) => Ok(Instruction::DefCfaExpression(b)),
            Err(e) => Err(e),
        }
    } else {
        Err(CfiError::MalformedInstruction)
    }
}

/// Whether the first operand of the opcode `op` is a register.
fn has_register_operand(op: u8) -> (r: bool)
    ensures
        r == takes_register(op),
{
    (0x05 <= op && op <= 0x09) || op == 0x0c || op == 0x0d || op == 0x10 || op == 0x11 || op
        == 0x12 || op == 0x14 || op == 0x15 || op == 0x16
}

/// Reads one instruction. On success the cursor stands after it.
pub fn read_instruction(reader: &mut ByteCursor) -> (r: Result<Instruction, CfiError>)
    ensures
        match instruction_at(old(reader)@) {
            Err(e) => r is Err && r->Err_0 == e,
            Ok((i, rest)) => r is Ok && r->Ok_0@ == i && final(reader)@ == rest && rest.len()
                < old(reader)@.len(),
        },
{
    let op = match reader.read_u8() {
        Ok(v) => v,
        Err(_) => return Err(CfiError::MalformedInstruction),
    };
    if op >= 64 {
        read_packed(reader, op)
    } else if has_register_operand(op) {
        let r = match read_reg(reader) {
            Ok(v) => v,
            Err(e) => return Err(e),
        };
        read_after_register(reader, op, r)
    } else {
        read_plain(reader, op)
    }
}

} // verus!
