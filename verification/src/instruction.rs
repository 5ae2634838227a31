//! The closed instruction catalogue of the virtual machine, with each
//! variant's stack-effect contract and well-formedness condition.

use vstd::prelude::*;
use vstd::utf8::encode_utf8;
use crate::value::scalar_type_wf;
use crate::value::scalar_in_range;

verus! {

/// Longest byte length a string operand may encode to.
pub const MAX_CONSTANT_LENGTH: usize = 1024;

/// A fatal error met while decoding bytecode. `ConstantTooLong` covers a
/// string operand over `MAX_CONSTANT_LENGTH`, and also an integer operand
/// beyond the 128-bit quantity range or the machine's address width — a
/// machine limit, since addresses must fit `usize`.
#[derive(Clone, Copy, Debug, PartialEq, Eq, Structural)]
pub enum DecodingError {
    UnexpectedEOF,
    UnknownInstructionCode(u8),
    ConstantTooLong,
    UTF8Error,
}

/// The catalogue of instruction kinds, one per wire opcode.
#[derive(Clone, Copy, Debug, PartialEq, Eq, Structural)]
pub enum InstructionCode {
    NoOperation,
    PushConst,
    Pop,
    Slice,
    Swap,
    Load,
    LoadSequence,
    LoadByIndex,
    LoadSequenceByIndex,
    Store,
    StoreSequence,
    StoreByIndex,
    StoreSequenceByIndex,
    LoadGlobal,
    LoadSequenceGlobal,
    LoadByIndexGlobal,
    LoadSequenceByIndexGlobal,
    StoreGlobal,
    StoreSequenceGlobal,
    Ref,
    RefGlobal,
    LoadByRef,
    LoadSequenceByRef,
    LoadByIndexByRef,
    LoadSequenceByIndexByRef,
    StoreByRef,
    StoreSequenceByRef,
    StoreByIndexByRef,
    StoreSequenceByIndexByRef,
    Add,
    Sub,
    Mul,
    Div,
    Rem,
    Neg,
    Not,
    And,
    Or,
    Xor,
    Lt,
    Le,
    Eq,
    Ne,
    Ge,
    Gt,
    Cast,
    If,
    Else,
    EndIf,
    LoopBegin,
    LoopEnd,
    Call,
    Return,
    CallBuiltin,
    Assert,
    Dbg,
    Exit,
    FileMarker,
    FunctionMarker,
    LineMarker,
    ColumnMarker,
}

/// One decoded instruction. Addresses are indices into the data stack
/// (frame-relative for the local forms, absolute for the global and
/// by-reference forms); `bound` is the declared aggregate size a popped index
/// is checked against; `seq_len` is the arity of a sequence transfer.
#[derive(Clone, Debug, PartialEq)]
pub enum Instruction {
    NoOperation,
    PushConst { value: i128, is_signed: bool, bit_length: u8 },
    Pop { count: usize },
    Slice { total: usize, len: usize },
    Swap,
    Load { address: usize },
    LoadSequence { address: usize, len: usize },
    LoadByIndex { address: usize, bound: usize },
    LoadSequenceByIndex { address: usize, bound: usize, seq_len: usize },
    Store { address: usize },
    StoreSequence { address: usize, len: usize },
    StoreByIndex { address: usize, bound: usize },
    StoreSequenceByIndex { address: usize, bound: usize, seq_len: usize },
    LoadGlobal { address: usize },
    LoadSequenceGlobal { address: usize, len: usize },
    LoadByIndexGlobal { address: usize, bound: usize },
    LoadSequenceByIndexGlobal { address: usize, bound: usize, seq_len: usize },
    StoreGlobal { address: usize },
    StoreSequenceGlobal { address: usize, len: usize },
    Ref { address: usize },
    RefGlobal { address: usize },
    LoadByRef,
    LoadSequenceByRef { len: usize },
    LoadByIndexByRef { bound: usize },
    LoadSequenceByIndexByRef { bound: usize, seq_len: usize },
    StoreByRef,
    StoreSequenceByRef { len: usize },
    StoreByIndexByRef { bound: usize },
    StoreSequenceByIndexByRef { bound: usize, seq_len: usize },
    Add,
    Sub,
    Mul,
    Div,
    Rem,
    Neg,
    Not,
    And,
    Or,
    Xor,
    Lt,
    Le,
    Eq,
    Ne,
    Ge,
    Gt,
    Cast { is_signed: bool, bit_length: u8 },
    If,
    Else,
    EndIf,
    LoopBegin { iterations: usize },
    LoopEnd,
    Call { address: usize, inputs: usize },
    Return { outputs: usize },
    CallBuiltin { identifier: usize, inputs: usize, outputs: usize },
    Assert,
    Dbg { string: String, nargs: usize },
    Exit { outputs: usize },
    FileMarker { file: String },
    FunctionMarker { name: String },
    LineMarker { line: usize },
    ColumnMarker { column: usize },
}

impl Instruction {
    /// The catalogue kind of this instruction.
    pub fn code(&self) -> (r: InstructionCode)
        ensures
            r == self.spec_code(),
    {
        match self {
            Instruction::NoOperation => InstructionCode::NoOperation,
            Instruction::PushConst { .. } => InstructionCode::PushConst,
            Instruction::Pop { .. } => InstructionCode::Pop,
            Instruction::Slice { .. } => InstructionCode::Slice,
            Instruction::Swap => InstructionCode::Swap,
            Instruction::Load { .. } => InstructionCode::Load,
            Instruction::LoadSequence { .. } => InstructionCode::LoadSequence,
            Instruction::LoadByIndex { .. } => InstructionCode::LoadByIndex,
            Instruction::LoadSequenceByIndex { .. } => InstructionCode::LoadSequenceByIndex,
            Instruction::Store { .. } => InstructionCode::Store,
            Instruction::StoreSequence { .. } => InstructionCode::StoreSequence,
            Instruction::StoreByIndex { .. } => InstructionCode::StoreByIndex,
            Instruction::StoreSequenceByIndex { .. } => InstructionCode::StoreSequenceByIndex,
            Instruction::LoadGlobal { .. } => InstructionCode::LoadGlobal,
            Instruction::LoadSequenceGlobal { .. } => InstructionCode::LoadSequenceGlobal,
            Instruction::LoadByIndexGlobal { .. } => InstructionCode::LoadByIndexGlobal,
            Instruction::LoadSequenceByIndexGlobal { .. } => InstructionCode::LoadSequenceByIndexGlobal,
            Instruction::StoreGlobal { .. } => InstructionCode::StoreGlobal,
            Instruction::StoreSequenceGlobal { .. } => InstructionCode::StoreSequenceGlobal,
            Instruction::Ref { .. } => InstructionCode::Ref,
            Instruction::RefGlobal { .. } => InstructionCode::RefGlobal,
            Instruction::LoadByRef => InstructionCode::LoadByRef,
            Instruction::LoadSequenceByRef { .. } => InstructionCode::LoadSequenceByRef,
            Instruction::LoadByIndexByRef { .. } => InstructionCode::LoadByIndexByRef,
            Instruction::LoadSequenceByIndexByRef { .. } => InstructionCode::LoadSequenceByIndexByRef,
            Instruction::StoreByRef => InstructionCode::StoreByRef,
            Instruction::StoreSequenceByRef { .. } => InstructionCode::StoreSequenceByRef,
            Instruction::StoreByIndexByRef { .. } => InstructionCode::StoreByIndexByRef,
            Instruction::StoreSequenceByIndexByRef { .. } => InstructionCode::StoreSequenceByIndexByRef,
            Instruction::Add => InstructionCode::Add,
            Instruction::Sub => InstructionCode::Sub,
            Instruction::Mul => InstructionCode::Mul,
            Instruction::Div => InstructionCode::Div,
            Instruction::Rem => InstructionCode::Rem,
            Instruction::Neg => InstructionCode::Neg,
            Instruction::Not => InstructionCode::Not,
            Instruction::And => InstructionCode::And,
            Instruction::Or => InstructionCode::Or,
            Instruction::Xor => InstructionCode::Xor,
            Instruction::Lt => InstructionCode::Lt,
            Instruction::Le => InstructionCode::Le,
            Instruction::Eq => InstructionCode::Eq,
            Instruction::Ne => InstructionCode::Ne,
            Instruction::Ge => InstructionCode::Ge,
            Instruction::Gt => InstructionCode::Gt,
            Instruction::Cast { .. } => InstructionCode::Cast,
            Instruction::If => InstructionCode::If,
            Instruction::Else => InstructionCode::Else,
            Instruction::EndIf => InstructionCode::EndIf,
            Instruction::LoopBegin { .. } => InstructionCode::LoopBegin,
            Instruction::LoopEnd => InstructionCode::LoopEnd,
            Instruction::Call { .. } => InstructionCode::Call,
            Instruction::Return { .. } => InstructionCode::Return,
            Instruction::CallBuiltin { .. } => InstructionCode::CallBuiltin,
            Instruction::Assert => InstructionCode::Assert,
            Instruction::Dbg { .. } => InstructionCode::Dbg,
            Instruction::Exit { .. } => InstructionCode::Exit,
            Instruction::FileMarker { .. } => InstructionCode::FileMarker,
            Instruction::FunctionMarker { .. } => InstructionCode::FunctionMarker,
            Instruction::LineMarker { .. } => InstructionCode::LineMarker,
            Instruction::ColumnMarker { .. } => InstructionCode::ColumnMarker,
        }
    }

    /// The catalogue kind, at the specification level.
    pub open spec fn spec_code(self) -> InstructionCode {
        match self {
            Instruction::NoOperation => InstructionCode::NoOperation,
            Instruction::PushConst { .. } => InstructionCode::PushConst,
            Instruction::Pop { .. } => InstructionCode::Pop,
            Instruction::Slice { .. } => InstructionCode::Slice,
            Instruction::Swap => InstructionCode::Swap,
            Instruction::Load { .. } => InstructionCode::Load,
            Instruction::LoadSequence { .. } => InstructionCode::LoadSequence,
            Instruction::LoadByIndex { .. } => InstructionCode::LoadByIndex,
            Instruction::LoadSequenceByIndex { .. } => InstructionCode::LoadSequenceByIndex,
            Instruction::Store { .. } => InstructionCode::Store,
            Instruction::StoreSequence { .. } => InstructionCode::StoreSequence,
            Instruction::StoreByIndex { .. } => InstructionCode::StoreByIndex,
            Instruction::StoreSequenceByIndex { .. } => InstructionCode::StoreSequenceByIndex,
            Instruction::LoadGlobal { .. } => InstructionCode::LoadGlobal,
            Instruction::LoadSequenceGlobal { .. } => InstructionCode::LoadSequenceGlobal,
            Instruction::LoadByIndexGlobal { .. } => InstructionCode::LoadByIndexGlobal,
            Instruction::LoadSequenceByIndexGlobal { .. } => InstructionCode::LoadSequenceByIndexGlobal,
            Instruction::StoreGlobal { .. } => InstructionCode::StoreGlobal,
            Instruction::StoreSequenceGlobal { .. } => InstructionCode::StoreSequenceGlobal,
            Instruction::Ref { .. } => InstructionCode::Ref,
            Instruction::RefGlobal { .. } => InstructionCode::RefGlobal,
            Instruction::LoadByRef => InstructionCode::LoadByRef,
            Instruction::LoadSequenceByRef { .. } => InstructionCode::LoadSequenceByRef,
            Instruction::LoadByIndexByRef { .. } => InstructionCode::LoadByIndexByRef,
            Instruction::LoadSequenceByIndexByRef { .. } => InstructionCode::LoadSequenceByIndexByRef,
            Instruction::StoreByRef => InstructionCode::StoreByRef,
            Instruction::StoreSequenceByRef { .. } => InstructionCode::StoreSequenceByRef,
            Instruction::StoreByIndexByRef { .. } => InstructionCode::StoreByIndexByRef,
            Instruction::StoreSequenceByIndexByRef { .. } => InstructionCode::StoreSequenceByIndexByRef,
            Instruction::Add => InstructionCode::Add,
            Instruction::Sub => InstructionCode::Sub,
            Instruction::Mul => InstructionCode::Mul,
            Instruction::Div => InstructionCode::Div,
            Instruction::Rem => InstructionCode::Rem,
            Instruction::Neg => InstructionCode::Neg,
            Instruction::Not => InstructionCode::Not,
            Instruction::And => InstructionCode::And,
            Instruction::Or => InstructionCode::Or,
            Instruction::Xor => InstructionCode::Xor,
            Instruction::Lt => InstructionCode::Lt,
            Instruction::Le => InstructionCode::Le,
            Instruction::Eq => InstructionCode::Eq,
            Instruction::Ne => InstructionCode::Ne,
            Instruction::Ge => InstructionCode::Ge,
            Instruction::Gt => InstructionCode::Gt,
            Instruction::Cast { .. } => InstructionCode::Cast,
            Instruction::If => InstructionCode::If,
            Instruction::Else => InstructionCode::Else,
            Instruction::EndIf => InstructionCode::EndIf,
            Instruction::LoopBegin { .. } => InstructionCode::LoopBegin,
            Instruction::LoopEnd => InstructionCode::LoopEnd,
            Instruction::Call { .. } => InstructionCode::Call,
            Instruction::Return { .. } => InstructionCode::Return,
            Instruction::CallBuiltin { .. } => InstructionCode::CallBuiltin,
            Instruction::Assert => InstructionCode::Assert,
            Instruction::Dbg { .. } => InstructionCode::Dbg,
            Instruction::Exit { .. } => InstructionCode::Exit,
            Instruction::FileMarker { .. } => InstructionCode::FileMarker,
            Instruction::FunctionMarker { .. } => InstructionCode::FunctionMarker,
            Instruction::LineMarker { .. } => InstructionCode::LineMarker,
            Instruction::ColumnMarker { .. } => InstructionCode::ColumnMarker,
        }
    }

    /// Count of evaluation-stack values the instruction consumes.
    pub open spec fn spec_inputs_count(self) -> int {
        match self {
            Instruction::Pop { count } => count as int,
            Instruction::Slice { total, .. } => 1 + total as int,
            Instruction::Swap => 2,
            Instruction::LoadByIndex { .. } => 1,
            Instruction::LoadSequenceByIndex { .. } => 1,
            Instruction::Store { .. } => 1,
            Instruction::StoreSequence { len, .. } => len as int,
            Instruction::StoreByIndex { .. } => 2,
            Instruction::StoreSequenceByIndex { seq_len, .. } => 1 + seq_len as int,
            Instruction::LoadByIndexGlobal { .. } => 1,
            Instruction::LoadSequenceByIndexGlobal { .. } => 1,
            Instruction::StoreGlobal { .. } => 1,
            Instruction::StoreSequenceGlobal { len, .. } => len as int,
            Instruction::LoadByRef => 1,
            Instruction::LoadSequenceByRef { .. } => 1,
            Instruction::LoadByIndexByRef { .. } => 2,
            Instruction::LoadSequenceByIndexByRef { .. } => 2,
            Instruction::StoreByRef => 2,
            Instruction::StoreSequenceByRef { len } => 1 + len as int,
            Instruction::StoreByIndexByRef { .. } => 3,
            Instruction::StoreSequenceByIndexByRef { seq_len, .. } => 2 + seq_len as int,
            Instruction::Add | Instruction::Sub | Instruction::Mul | Instruction::Div
                | Instruction::Rem => 2,
            Instruction::Neg | Instruction::Not => 1,
            Instruction::And | Instruction::Or | Instruction::Xor => 2,
            Instruction::Lt | Instruction::Le | Instruction::Eq | Instruction::Ne
                | Instruction::Ge | Instruction::Gt => 2,
            Instruction::Cast { .. } => 1,
            Instruction::If => 1,
            Instruction::Call { inputs, .. } => inputs as int,
            Instruction::Return { outputs } => outputs as int,
            Instruction::CallBuiltin { inputs, .. } => inputs as int,
            Instruction::Assert => 1,
            Instruction::Dbg { nargs, .. } => nargs as int,
            Instruction::Exit { outputs } => outputs as int,
            _ => 0,
        }
    }

    /// Count of evaluation-stack values the instruction produces.
    pub open spec fn spec_outputs_count(self) -> int {
        match self {
            Instruction::PushConst { .. } => 1,
            Instruction::Slice { len, .. } => len as int,
            Instruction::Swap => 2,
            Instruction::Load { .. } => 1,
            Instruction::LoadSequence { len, .. } => len as int,
            Instruction::LoadByIndex { .. } => 1,
            Instruction::LoadSequenceByIndex { seq_len, .. } => seq_len as int,
            Instruction::LoadGlobal { .. } => 1,
            Instruction::LoadSequenceGlobal { len, .. } => len as int,
            Instruction::LoadByIndexGlobal { .. } => 1,
            Instruction::LoadSequenceByIndexGlobal { seq_len, .. } => seq_len as int,
            Instruction::Ref { .. } => 1,
            Instruction::RefGlobal { .. } => 1,
            Instruction::LoadByRef => 1,
            Instruction::LoadSequenceByRef { len } => len as int,
            Instruction::LoadByIndexByRef { .. } => 1,
            Instruction::LoadSequenceByIndexByRef { seq_len, .. } => seq_len as int,
            Instruction::Add | Instruction::Sub | Instruction::Mul | Instruction::Div
                | Instruction::Rem | Instruction::Neg => 1,
            Instruction::Not | Instruction::And | Instruction::Or | Instruction::Xor => 1,
            Instruction::Lt | Instruction::Le | Instruction::Eq | Instruction::Ne
                | Instruction::Ge | Instruction::Gt => 1,
            Instruction::Cast { .. } => 1,
            Instruction::CallBuiltin { outputs, .. } => outputs as int,
            _ => 0,
        }
    }

    /// The instruction changes the evaluation stack by exactly
    /// `spec_outputs_count() - spec_inputs_count()` whenever it executes
    /// without error. `Else`, `EndIf` and `Return` are the exceptions: they
    /// restore the stack to a recorded height.
    pub open spec fn has_static_stack_effect(self) -> bool {
        !(self is Else || self is EndIf || self is Return)
    }

    /// Well-formedness of the decoded form: constants lie within their
    /// declared scalar type, and string operands fit the length bound.
    pub open spec fn wf(self) -> bool {
        match self {
            Instruction::PushConst { value, is_signed, bit_length } => scalar_type_wf(
                is_signed,
                bit_length,
            ) && scalar_in_range(is_signed, bit_length, value),
            Instruction::Cast { is_signed, bit_length } => scalar_type_wf(is_signed, bit_length),
            Instruction::Dbg { string, .. } => encode_utf8(string@).len() <= MAX_CONSTANT_LENGTH,
            Instruction::FileMarker { file } => encode_utf8(file@).len() <= MAX_CONSTANT_LENGTH,
            Instruction::FunctionMarker { name } => encode_utf8(name@).len()
                <= MAX_CONSTANT_LENGTH,
            _ => true,
        }
    }
}


/// Saturating sum for operand counts.
fn sat_add(a: usize, b: usize) -> (r: usize)
    ensures
        a + b <= usize::MAX ==> r == a + b,
{
    if a > usize::MAX - b {
        usize::MAX
    } else {
        a + b
    }
}

impl Instruction {
    /// Count of evaluation-stack values consumed, saturated at the machine
    /// word.
    pub fn inputs_count(&self) -> (r: usize)
        ensures
            self.spec_inputs_count() <= usize::MAX ==> r == self.spec_inputs_count(),
    {
        match self {
            Instruction::Pop { count } => *count,
            Instruction::Slice { total, .. } => sat_add(1, *total),
            Instruction::Swap => 2,
            Instruction::LoadByIndex { .. } => 1,
            Instruction::LoadSequenceByIndex { .. } => 1,
            Instruction::Store { .. } => 1,
            Instruction::StoreSequence { len, .. } => *len,
            Instruction::StoreByIndex { .. } => 2,
            Instruction::StoreSequenceByIndex { seq_len, .. } => sat_add(1, *seq_len),
            Instruction::LoadByIndexGlobal { .. } => 1,
            Instruction::LoadSequenceByIndexGlobal { .. } => 1,
            Instruction::StoreGlobal { .. } => 1,
            Instruction::StoreSequenceGlobal { len, .. } => *len,
            Instruction::LoadByRef => 1,
            Instruction::LoadSequenceByRef { .. } => 1,
            Instruction::LoadByIndexByRef { .. } => 2,
            Instruction::LoadSequenceByIndexByRef { .. } => 2,
            Instruction::StoreByRef => 2,
            Instruction::StoreSequenceByRef { len } => sat_add(1, *len),
            Instruction::StoreByIndexByRef { .. } => 3,
            Instruction::StoreSequenceByIndexByRef { seq_len, .. } => sat_add(2, *seq_len),
            Instruction::Add | Instruction::Sub | Instruction::Mul | Instruction::Div
                | Instruction::Rem => 2,
            Instruction::Neg | Instruction::Not => 1,
            Instruction::And | Instruction::Or | Instruction::Xor => 2,
            Instruction::Lt | Instruction::Le | Instruction::Eq | Instruction::Ne
                | Instruction::Ge | Instruction::Gt => 2,
            Instruction::Cast { .. } => 1,
            Instruction::If => 1,
            Instruction::Call { inputs, .. } => *inputs,
            Instruction::Return { outputs } => *outputs,
            Instruction::CallBuiltin { inputs, .. } => *inputs,
            Instruction::Assert => 1,
            Instruction::Dbg { nargs, .. } => *nargs,
            Instruction::Exit { outputs } => *outputs,
            _ => 0,
        }
    }

    /// Count of evaluation-stack values produced.
    pub fn outputs_count(&self) -> (r: usize)
        ensures
            r == self.spec_outputs_count(),
    {
        match self {
            Instruction::PushConst { .. } => 1,
            Instruction::Slice { len, .. } => *len,
            Instruction::Swap => 2,
            Instruction::Load { .. } => 1,
            Instruction::LoadSequence { len, .. } => *len,
            Instruction::LoadByIndex { .. } => 1,
            Instruction::LoadSequenceByIndex { seq_len, .. } => *seq_len,
            Instruction::LoadGlobal { .. } => 1,
            Instruction::LoadSequenceGlobal { len, .. } => *len,
            Instruction::LoadByIndexGlobal { .. } => 1,
            Instruction::LoadSequenceByIndexGlobal { seq_len, .. } => *seq_len,
            Instruction::Ref { .. } => 1,
            Instruction::RefGlobal { .. } => 1,
            Instruction::LoadByRef => 1,
            Instruction::LoadSequenceByRef { len } => *len,
            Instruction::LoadByIndexByRef { .. } => 1,
            Instruction::LoadSequenceByIndexByRef { seq_len, .. } => *seq_len,
            Instruction::Add | Instruction::Sub | Instruction::Mul | Instruction::Div
                | Instruction::Rem | Instruction::Neg => 1,
            Instruction::Not | Instruction::And | Instruction::Or | Instruction::Xor => 1,
            Instruction::Lt | Instruction::Le | Instruction::Eq | Instruction::Ne
                | Instruction::Ge | Instruction::Gt => 1,
            Instruction::Cast { .. } => 1,
            Instruction::CallBuiltin { outputs, .. } => *outputs,
            _ => 0,
        }
    }

    /// The canonical assembly mnemonic of each variant.
    pub open spec fn spec_assembly(self) -> Seq<char> {
        match self {
            Instruction::NoOperation => "noop"@,
            Instruction::PushConst { .. } => "push"@,
            Instruction::Pop { .. } => "pop"@,
            Instruction::Slice { .. } => "slice"@,
            Instruction::Swap => "swap"@,
            Instruction::Load { .. } => "load"@,
            Instruction::LoadSequence { .. } => "load_array"@,
            Instruction::LoadByIndex { .. } => "load_by_index"@,
            Instruction::LoadSequenceByIndex { .. } => "load_array_by_index"@,
            Instruction::Store { .. } => "store"@,
            Instruction::StoreSequence { .. } => "store_array"@,
            Instruction::StoreByIndex { .. } => "store_by_index"@,
            Instruction::StoreSequenceByIndex { .. } => "store_array_by_index"@,
            Instruction::LoadGlobal { .. } => "load_global"@,
            Instruction::LoadSequenceGlobal { .. } => "load_array_global"@,
            Instruction::LoadByIndexGlobal { .. } => "load_by_index_global"@,
            Instruction::LoadSequenceByIndexGlobal { .. } => "load_array_by_index_global"@,
            Instruction::StoreGlobal { .. } => "store_global"@,
            Instruction::StoreSequenceGlobal { .. } => "store_array_global"@,
            Instruction::Ref { .. } => "ref"@,
            Instruction::RefGlobal { .. } => "ref_global"@,
            Instruction::LoadByRef => "load_by_ref"@,
            Instruction::LoadSequenceByRef { .. } => "load_array_by_ref"@,
            Instruction::LoadByIndexByRef { .. } => "load_by_index_by_ref"@,
            Instruction::LoadSequenceByIndexByRef { .. } => "load_array_by_index_by_ref"@,
            Instruction::StoreByRef => "store_by_ref"@,
            Instruction::StoreSequenceByRef { .. } => "store_array_by_ref"@,
            Instruction::StoreByIndexByRef { .. } => "store_by_index_by_ref"@,
            Instruction::StoreSequenceByIndexByRef { .. } => "store_array_by_index_by_ref"@,
            Instruction::Add => "add"@,
            Instruction::Sub => "sub"@,
            Instruction::Mul => "mul"@,
            Instruction::Div => "div"@,
            Instruction::Rem => "rem"@,
            Instruction::Neg => "neg"@,
            Instruction::Not => "not"@,
            Instruction::And => "and"@,
            Instruction::Or => "or"@,
            Instruction::Xor => "xor"@,
            Instruction::Lt => "lt"@,
            Instruction::Le => "le"@,
            Instruction::Eq => "eq"@,
            Instruction::Ne => "ne"@,
            Instruction::Ge => "ge"@,
            Instruction::Gt => "gt"@,
            Instruction::Cast { .. } => "cast"@,
            Instruction::If => "if"@,
            Instruction::Else => "else"@,
            Instruction::EndIf => "endif"@,
            Instruction::LoopBegin { .. } => "loop_begin"@,
            Instruction::LoopEnd => "loop_end"@,
            Instruction::Call { .. } => "call"@,
            Instruction::Return { .. } => "ret"@,
            Instruction::CallBuiltin { .. } => "call_builtin"@,
            Instruction::Assert => "assert"@,
            Instruction::Dbg { .. } => "dbg"@,
            Instruction::Exit { .. } => "exit"@,
            Instruction::FileMarker { .. } => "marker_file"@,
            Instruction::FunctionMarker { .. } => "marker_function"@,
            Instruction::LineMarker { .. } => "marker_line"@,
            Instruction::ColumnMarker { .. } => "marker_column"@,
        }
    }

    /// The mnemonic of the instruction's assembly form.
    pub fn to_assembly(&self) -> (r: String)
        ensures
            r@ == self.spec_assembly(),
    {
        let m: &str = match self {
            Instruction::NoOperation => "noop",
            Instruction::PushConst { .. } => "push",
            Instruction::Pop { .. } => "pop",
            Instruction::Slice { .. } => "slice",
            Instruction::Swap => "swap",
            Instruction::Load { .. } => "load",
            Instruction::LoadSequence { .. } => "load_array",
            Instruction::LoadByIndex { .. } => "load_by_index",
            Instruction::LoadSequenceByIndex { .. } => "load_array_by_index",
            Instruction::Store { .. } => "store",
            Instruction::StoreSequence { .. } => "store_array",
            Instruction::StoreByIndex { .. } => "store_by_index",
            Instruction::StoreSequenceByIndex { .. } => "store_array_by_index",
            Instruction::LoadGlobal { .. } => "load_global",
            Instruction::LoadSequenceGlobal { .. } => "load_array_global",
            Instruction::LoadByIndexGlobal { .. } => "load_by_index_global",
            Instruction::LoadSequenceByIndexGlobal { .. } => "load_array_by_index_global",
            Instruction::StoreGlobal { .. } => "store_global",
            Instruction::StoreSequenceGlobal { .. } => "store_array_global",
            Instruction::Ref { .. } => "ref",
            Instruction::RefGlobal { .. } => "ref_global",
            Instruction::LoadByRef => "load_by_ref",
            Instruction::LoadSequenceByRef { .. } => "load_array_by_ref",
            Instruction::LoadByIndexByRef { .. } => "load_by_index_by_ref",
            Instruction::LoadSequenceByIndexByRef { .. } => "load_array_by_index_by_ref",
            Instruction::StoreByRef => "store_by_ref",
            Instruction::StoreSequenceByRef { .. } => "store_array_by_ref",
            Instruction::StoreByIndexByRef { .. } => "store_by_index_by_ref",
            Instruction::StoreSequenceByIndexByRef { .. } => "store_array_by_index_by_ref",
            Instruction::Add => "add",
            Instruction::Sub => "sub",
            Instruction::Mul => "mul",
            Instruction::Div => "div",
            Instruction::Rem => "rem",
            Instruction::Neg => "neg",
            Instruction::Not => "not",
            Instruction::And => "and",
            Instruction::Or => "or",
            Instruction::Xor => "xor",
            Instruction::Lt => "lt",
            Instruction::Le => "le",
            Instruction::Eq => "eq",
            Instruction::Ne => "ne",
            Instruction::Ge => "ge",
            Instruction::Gt => "gt",
            Instruction::Cast { .. } => "cast",
            Instruction::If => "if",
            Instruction::Else => "else",
            Instruction::EndIf => "endif",
            Instruction::LoopBegin { .. } => "loop_begin",
            Instruction::LoopEnd => "loop_end",
            Instruction::Call { .. } => "call",
            Instruction::Return { .. } => "ret",
            Instruction::CallBuiltin { .. } => "call_builtin",
            Instruction::Assert => "assert",
            Instruction::Dbg { .. } => "dbg",
            Instruction::Exit { .. } => "exit",
            Instruction::FileMarker { .. } => "marker_file",
            Instruction::FunctionMarker { .. } => "marker_function",
            Instruction::LineMarker { .. } => "marker_line",
            Instruction::ColumnMarker { .. } => "marker_column",
        };
        m.to_owned()
    }
}

/// What every instruction of the catalogue offers: its kind, its assembly
/// mnemonic, its evaluation-stack operand counts, its binary codec, and the
/// wrapping into the catalogue's sum type.
pub trait InstructionInfo: Sized {
    fn to_assembly(&self) -> String;

    fn code(&self) -> InstructionCode;

    fn encode(&self) -> Vec<u8>;

    fn decode(bytes: &Vec<u8>) -> Result<(Self, usize), DecodingError>;

    fn inputs_count(&self) -> usize;

    fn outputs_count(&self) -> usize;

    fn wrap(self) -> Instruction;
}

impl InstructionInfo for Instruction {
    fn to_assembly(&self) -> String {
        Instruction::to_assembly(self)
    }

    fn code(&self) -> InstructionCode {
        Instruction::code(self)
    }

    fn encode(&self) -> Vec<u8> {
        let mut out: Vec<u8> = Vec::new();
        crate::codec::encode_instruction(self, &mut out);
        out
    }

    fn decode(bytes: &Vec<u8>) -> Result<(Instruction, usize), DecodingError> {
        crate::codec::decode_instruction(bytes, 0)
    }

    fn inputs_count(&self) -> usize {
        Instruction::inputs_count(self)
    }

    fn outputs_count(&self) -> usize {
        Instruction::outputs_count(self)
    }

    fn wrap(self) -> Instruction {
        self
    }
}

} // verus!
