//! The decoded DEX instruction set as the engine recognizes it.
//!
//! Arithmetic, bitwise and shift opcodes are factored by operator tag and
//! shape (in-place two-register, three-register with destination, and
//! destination plus source plus 8- or 16-bit literal); the width suffixes of
//! the raw opcodes (`-int`, `-long`) do not change the symbolic semantics.
//! Likewise the typed static-get / instance-get families collapse to one
//! tag each plus a wide sibling.

use vstd::prelude::*;
use crate::value::BinaryOp;

verus! {

/// The six comparators of the `if-test` and `if-testz` families.
#[derive(Clone, Copy, PartialEq, Eq, Structural, Debug)]
pub enum TestFunction {
    Equal,
    NotEqual,
    LessThan,
    LessEqual,
    GreaterThan,
    GreaterEqual,
}

/// The five invoke families; `/range` variants carry the same tag.
#[derive(Clone, Copy, PartialEq, Eq, Structural, Debug)]
pub enum InvokeKind {
    Virtual,
    Super,
    Direct,
    Static,
    Interface,
}

/// The payload of a packed or sparse switch: `(key, displacement)` pairs.
pub struct SwitchData {
    pub targets: Vec<(i32, i32)>,
}

/// One decoded Dalvik instruction.
pub enum Instruction {
    Nop,
    /// Raw data the decoder could not classify; ignored by the engine.
    ArbitraryData(Vec<u8>),
    Goto8(i8),
    Goto16(i16),
    Goto32(i32),
    /// `check-cast reg, type`; a no-op in the symbolic domain.
    CheckCast(u8, u32),
    /// `if-test left, right, +offset`.
    Test(TestFunction, u8, u8, i16),
    /// `if-testz left, +offset`: compares `left` against zero.
    TestZero(TestFunction, u8, i16),
    /// `packed-switch` / `sparse-switch`: register and payload displacement.
    Switch(u8, i32),
    SwitchData(SwitchData),
    ArrayData(u16, Vec<u8>),
    /// In-place shape: `left = left OP right`.
    Binary(BinaryOp, u8, u8),
    /// Destination shape: `dst = left OP right`.
    BinaryDst(BinaryOp, u8, u8, u8),
    /// Literal shape: `dst = left OP lit` with an 8-bit immediate.
    BinaryLit8(BinaryOp, u8, u8, i8),
    /// Literal shape: `dst = left OP lit` with a 16-bit immediate.
    BinaryLit16(BinaryOp, u8, u8, i16),
    /// An invoke with an explicit register list.
    Invoke(InvokeKind, u32, Vec<u8>),
    /// A `/range` invoke; the engine records no arguments for these.
    InvokeRange(InvokeKind, u32),
    ConstLit4(u8, i8),
    ConstLit16(u8, i16),
    ConstLit32(u8, i32),
    ConstString(u8, u32),
    ConstStringJumbo(u8, u32),
    ConstClass(u8, u32),
    Const,
    ConstWide,
    IntToByte(u8, u8),
    IntToChar(u8, u8),
    ArrayLength(u8, u8),
    NewInstance(u8, u32),
    NewInstanceType(u32),
    NewArray(u8, u8, u32),
    FilledNewArray(u32, Vec<u8>),
    FilledNewArrayRange(u32, u16),
    FillArrayData(u8, i32),
    ArrayGetByte(u8, u8, u8),
    ArrayPutByte(u8, u8, u8),
    ArrayGetChar(u8, u8, u8),
    ArrayPutChar(u8, u8, u8),
    StaticGet(u8, u32),
    StaticGetWide(u8, u32),
    StaticPut(u8, u32),
    StaticPutWide(u8, u32),
    InstanceGet(u8, u8, u32),
    InstanceGetWide(u8, u8, u32),
    InstancePut(u8, u8, u32),
    Move(u8, u8),
    MoveObject(u8, u8),
    Move16(u16, u16),
    MoveObject16(u16, u16),
    MoveResult(u8),
    MoveResultWide(u8),
    MoveResultObject(u8),
    MoveFrom16(u8, u16),
    MoveWideFrom16(u8, u16),
    MoveObjectFrom16(u8, u16),
    MoveWide(u8, u8),
    MoveWide16(u16, u16),
    ReturnVoid,
    Return(u8),
    Throw(u8),
    /// An opcode the decoder knows but the engine does not model;
    /// it taints the branch and clears every register.
    NotImpl(u8, u8),
}

/// Whether the instruction is one of the invoke families.
pub open spec fn spec_is_function_call(i: Instruction) -> bool {
    i matches Instruction::Invoke(_, _, _) || i matches Instruction::InvokeRange(_, _)
}

/// Whether the instruction binds the pending call result into a register.
pub open spec fn spec_is_move_result(i: Instruction) -> bool {
    i matches Instruction::MoveResult(_) || i matches Instruction::MoveResultWide(_)
        || i matches Instruction::MoveResultObject(_)
}

/// Whether the instruction is one of the invoke families.
pub fn is_function_call(instruction: &Instruction) -> (res: bool)
    ensures
        res == spec_is_function_call(*instruction),
{
    matches!(instruction, Instruction::Invoke(..) | Instruction::InvokeRange(..))
}

/// Whether the instruction binds the pending call result into a register.
pub fn is_move_result(instruction: &Instruction) -> (res: bool)
    ensures
        res == spec_is_move_result(*instruction),
{
    matches!(
        instruction,
        Instruction::MoveResult(..) | Instruction::MoveResultWide(..)
            | Instruction::MoveResultObject(..)
    )
}

} // verus!
