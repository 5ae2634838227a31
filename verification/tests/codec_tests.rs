//! Round-trip and error tests of the bytecode codec.

use zinc_vm_core::codec::decode_instruction;
use zinc_vm_core::codec::decode_program;
use zinc_vm_core::codec::encode_program;
use zinc_vm_core::instruction::DecodingError;
use zinc_vm_core::instruction::Instruction;
use zinc_vm_core::instruction::InstructionInfo;

fn round_trip(i: Instruction) {
    let bytes = i.encode();
    let (decoded, n) = decode_instruction(&bytes, 0).unwrap();
    assert_eq!(decoded, i);
    assert_eq!(n, bytes.len());
}

#[test]
fn round_trip_every_variant() {
    let samples = vec![
        Instruction::NoOperation,
        Instruction::PushConst { value: -300, is_signed: true, bit_length: 16 },
        Instruction::PushConst { value: 42, is_signed: false, bit_length: 8 },
        Instruction::Pop { count: 3 },
        Instruction::Slice { total: 9, len: 2 },
        Instruction::Swap,
        Instruction::Load { address: 7 },
        Instruction::LoadSequence { address: 1, len: 200 },
        Instruction::LoadByIndex { address: 4, bound: 12 },
        Instruction::LoadSequenceByIndex { address: 4, bound: 12, seq_len: 3 },
        Instruction::Store { address: 130 },
        Instruction::StoreSequence { address: 0, len: 1 },
        Instruction::StoreByIndex { address: 2, bound: 2 },
        Instruction::StoreSequenceByIndex { address: 2, bound: 6, seq_len: 2 },
        Instruction::LoadGlobal { address: 99 },
        Instruction::LoadSequenceGlobal { address: 0, len: 0 },
        Instruction::LoadByIndexGlobal { address: 1, bound: 300 },
        Instruction::LoadSequenceByIndexGlobal { address: 1, bound: 300, seq_len: 10 },
        Instruction::StoreGlobal { address: 5 },
        Instruction::StoreSequenceGlobal { address: 5, len: 4 },
        Instruction::Ref { address: 17 },
        Instruction::RefGlobal { address: 0 },
        Instruction::LoadByRef,
        Instruction::LoadSequenceByRef { len: 3 },
        Instruction::LoadByIndexByRef { bound: 8 },
        Instruction::LoadSequenceByIndexByRef { bound: 8, seq_len: 2 },
        Instruction::StoreByRef,
        Instruction::StoreSequenceByRef { len: 3 },
        Instruction::StoreByIndexByRef { bound: 8 },
        Instruction::StoreSequenceByIndexByRef { bound: 8, seq_len: 2 },
        Instruction::Add,
        Instruction::Sub,
        Instruction::Mul,
        Instruction::Div,
        Instruction::Rem,
        Instruction::Neg,
        Instruction::Not,
        Instruction::And,
        Instruction::Or,
        Instruction::Xor,
        Instruction::Lt,
        Instruction::Le,
        Instruction::Eq,
        Instruction::Ne,
        Instruction::Ge,
        Instruction::Gt,
        Instruction::Cast { is_signed: true, bit_length: 24 },
        Instruction::If,
        Instruction::Else,
        Instruction::EndIf,
        Instruction::LoopBegin { iterations: 1000 },
        Instruction::LoopEnd,
        Instruction::Call { address: 2, inputs: 0 },
        Instruction::Return { outputs: 1 },
        Instruction::CallBuiltin { identifier: 3, inputs: 2, outputs: 1 },
        Instruction::Assert,
        Instruction::Dbg { string: String::from("debug Ω text"), nargs: 2 },
        Instruction::Exit { outputs: 1 },
        Instruction::FileMarker { file: String::from("main.zn") },
        Instruction::FunctionMarker { name: String::from("main") },
        Instruction::LineMarker { line: 12 },
        Instruction::ColumnMarker { column: 3 },
    ];
    for i in &samples {
        round_trip(i.clone());
        assert_eq!(i.clone().wrap(), i.clone());
    }
    // whole-program round trip, too
    let bytes = encode_program(&samples);
    let decoded = decode_program(&bytes).unwrap();
    assert_eq!(decoded, samples);
}

#[test]
fn decode_errors() {
    // empty input
    assert_eq!(decode_instruction(&vec![], 0), Err(DecodingError::UnexpectedEOF));
    // unknown opcode
    assert_eq!(decode_instruction(&vec![61], 0), Err(DecodingError::UnknownInstructionCode(61)));
    // truncated operand
    assert_eq!(decode_instruction(&vec![5, 0x80], 0), Err(DecodingError::UnexpectedEOF));
    // invalid utf-8 text operand: opcode 57, length 1, lone continuation byte
    assert_eq!(decode_instruction(&vec![57, 1, 0xFF], 0), Err(DecodingError::UTF8Error));
    // oversized text operand: length 2000 exceeds the constant bound
    assert_eq!(
        decode_instruction(&vec![55, 0xD0, 0x0F], 0),
        Err(DecodingError::ConstantTooLong)
    );
}

#[test]
fn counts_and_assembly() {
    assert_eq!(Instruction::Add.to_assembly(), "add");
    assert_eq!(Instruction::NoOperation.to_assembly(), "noop");
    assert_eq!(Instruction::Add.inputs_count(), 2);
    assert_eq!(Instruction::Add.outputs_count(), 1);
    assert_eq!(Instruction::Pop { count: 4 }.inputs_count(), 4);
    assert_eq!(
        Instruction::PushConst { value: 1, is_signed: false, bit_length: 8 }.outputs_count(),
        1
    );
}
