//! Binary encoding and decoding of instructions.
//!
//! Wire format: one opcode byte, then the operand bytes the opcode's shape
//! prescribes. Integer operands are variable-length quantities; the signed
//! constant of `PushConst` is zigzag-folded first; string operands are a
//! length-prefixed UTF-8 byte run, bounded by `MAX_CONSTANT_LENGTH`.

use vstd::prelude::*;
use vstd::utf8::encode_utf8;
use vstd::utf8::valid_utf8;
use vstd::utf8::encode_utf8_valid_utf8;
use vstd::utf8::encode_utf8_decode_utf8;
use crate::instruction::DecodingError;
use crate::instruction::Instruction;
use crate::instruction::MAX_CONSTANT_LENGTH;
use crate::vlq::spec_vlq_encode;
use crate::vlq::spec_vlq_decode;
use crate::vlq::lemma_vlq_round_trip;
use crate::vlq::vlq_encode;
use crate::vlq::vlq_decode;

verus! {

/// The operand shape an opcode prescribes.
#[derive(Clone, Copy, Debug, PartialEq, Eq, Structural)]
pub enum OperandShape {
    Empty,
    OneInt,
    TwoInts,
    ThreeInts,
    Constant,
    TypeOnly,
    Text,
    TextInt,
}

/// The flat image of one instruction: its opcode and every operand field,
/// with the fields the opcode's shape does not use held at their defaults.
/// Strings appear as their UTF-8 bytes, so that two instructions with equal
/// text have equal images.
#[verifier::ext_equal]
pub struct InstrImage {
    pub op: u8,
    pub a: usize,
    pub b: usize,
    pub c: usize,
    pub value: i128,
    pub flag: bool,
    pub bits: u8,
    pub bytes: Seq<u8>,
}

/// The shape of each opcode's operand bytes.
pub open spec fn opcode_shape(op: u8) -> OperandShape {
    if op == 1 {
        OperandShape::Constant
    } else if op == 45 {
        OperandShape::TypeOnly
    } else if op == 55 {
        OperandShape::TextInt
    } else if op == 57 || op == 58 {
        OperandShape::Text
    } else if op == 3 || op == 6 || op == 7 || op == 10 || op == 11 || op == 14 || op == 15
        || op == 18 || op == 24 || op == 28 || op == 51 {
        OperandShape::TwoInts
    } else if op == 8 || op == 12 || op == 16 || op == 53 {
        OperandShape::ThreeInts
    } else if op == 2 || op == 5 || op == 9 || op == 13 || op == 17 || op == 19 || op == 20
        || op == 22 || op == 23 || op == 26 || op == 27 || op == 49 || op == 52 || op == 56
        || op == 59 || op == 60 {
        OperandShape::OneInt
    } else {
        OperandShape::Empty
    }
}

/// Zigzag folding of a signed constant into an unsigned quantity.
pub open spec fn spec_zigzag(v: i128) -> u128 {
    if v >= 0 {
        (2 * (v as int)) as u128
    } else {
        ((-2) * (v as int) - 1) as u128
    }
}

/// Inverse of the zigzag folding.
pub open spec fn spec_unzigzag(z: u128) -> i128 {
    if z % 2 == 0 {
        (z / 2) as i128
    } else {
        (-(((z - 1) / 2) as int) - 1) as i128
    }
}

pub proof fn lemma_zigzag_round_trip(v: i128)
    ensures
        spec_unzigzag(spec_zigzag(v)) == v,
{
}

/// An image the codec can represent: a known opcode, defaults in the unused
/// fields, and a representable string operand.
pub open spec fn image_wf(m: InstrImage) -> bool {
    let sh = opcode_shape(m.op);
    &&& m.op <= 60
    &&& (m.a != 0 ==> sh is OneInt || sh is TwoInts || sh is ThreeInts || sh is TextInt)
    &&& (m.b != 0 ==> sh is TwoInts || sh is ThreeInts)
    &&& (m.c != 0 ==> sh is ThreeInts)
    &&& (m.value != 0 ==> sh is Constant)
    &&& (m.flag ==> sh is Constant || sh is TypeOnly)
    &&& (m.bits != 0 ==> sh is Constant || sh is TypeOnly)
    &&& (m.bytes.len() != 0 ==> sh is Text || sh is TextInt)
    &&& (sh is Text || sh is TextInt ==> valid_utf8(m.bytes) && m.bytes.len()
        <= MAX_CONSTANT_LENGTH)
}

/// The operand bytes of an image.
pub open spec fn spec_encode_operands(m: InstrImage) -> Seq<u8> {
    match opcode_shape(m.op) {
        OperandShape::Empty => Seq::empty(),
        OperandShape::OneInt => spec_vlq_encode(m.a as u128),
        OperandShape::TwoInts => spec_vlq_encode(m.a as u128) + spec_vlq_encode(m.b as u128),
        OperandShape::ThreeInts => spec_vlq_encode(m.a as u128) + spec_vlq_encode(m.b as u128)
            + spec_vlq_encode(m.c as u128),
        OperandShape::Constant => seq![if m.flag { 1u8 } else { 0u8 }, m.bits] + spec_vlq_encode(
            spec_zigzag(m.value),
        ),
        OperandShape::TypeOnly => seq![if m.flag { 1u8 } else { 0u8 }, m.bits],
        OperandShape::Text => spec_vlq_encode(m.bytes.len() as u128) + m.bytes,
        OperandShape::TextInt => spec_vlq_encode(m.bytes.len() as u128) + m.bytes
            + spec_vlq_encode(m.a as u128),
    }
}

/// The whole encoding of an image: opcode byte, then operands.
pub open spec fn spec_encode_image(m: InstrImage) -> Seq<u8> {
    seq![m.op] + spec_encode_operands(m)
}

/// The default image holding opcode `op` and nothing else.
pub open spec fn blank_image(op: u8) -> InstrImage {
    InstrImage { op, a: 0, b: 0, c: 0, value: 0, flag: false, bits: 0, bytes: Seq::empty() }
}

/// Decoding of one unsigned operand that must fit an address.
pub open spec fn spec_decode_int(bytes: Seq<u8>, i: int) -> Result<(usize, int), DecodingError> {
    match spec_vlq_decode(bytes, i) {
        Err(e) => Err(e),
        Ok((v, n)) => if v > usize::MAX as u128 {
            Err(DecodingError::ConstantTooLong)
        } else {
            Ok((v as usize, n))
        },
    }
}

/// Decoding of a length-prefixed byte run.
pub open spec fn spec_decode_bytes(bytes: Seq<u8>, i: int) -> Result<(Seq<u8>, int), DecodingError> {
    match spec_decode_int(bytes, i) {
        Err(e) => Err(e),
        Ok((len, n)) => if len > MAX_CONSTANT_LENGTH {
            Err(DecodingError::ConstantTooLong)
        } else if i + n + len > bytes.len() {
            Err(DecodingError::UnexpectedEOF)
        } else {
            Ok((bytes.subrange(i + n, i + n + len), n + len))
        },
    }
}

/// Decoding of the instruction image starting at `bytes[i]`: the image and
/// the count of bytes consumed, or the decode error.
pub open spec fn spec_decode_image(bytes: Seq<u8>, i: int) -> Result<
    (InstrImage, int),
    DecodingError,
> {
    if !(0 <= i < bytes.len()) {
        Err(DecodingError::UnexpectedEOF)
    } else {
        let op = bytes[i];
        if op > 60 {
            Err(DecodingError::UnknownInstructionCode(op))
        } else {
            match opcode_shape(op) {
                OperandShape::Empty => Ok((blank_image(op), 1)),
                OperandShape::OneInt => match spec_decode_int(bytes, i + 1) {
                    Err(e) => Err(e),
                    Ok((a, n)) => Ok((InstrImage { a, ..blank_image(op) }, 1 + n)),
                },
                OperandShape::TwoInts => match spec_decode_int(bytes, i + 1) {
                    Err(e) => Err(e),
                    Ok((a, n1)) => match spec_decode_int(bytes, i + 1 + n1) {
                        Err(e) => Err(e),
                        Ok((b, n2)) => Ok((InstrImage { a, b, ..blank_image(op) }, 1 + n1 + n2)),
                    },
                },
                OperandShape::ThreeInts => match spec_decode_int(bytes, i + 1) {
                    Err(e) => Err(e),
                    Ok((a, n1)) => match spec_decode_int(bytes, i + 1 + n1) {
                        Err(e) => Err(e),
                        Ok((b, n2)) => match spec_decode_int(bytes, i + 1 + n1 + n2) {
                            Err(e) => Err(e),
                            Ok((c, n3)) => Ok(
                                (InstrImage { a, b, c, ..blank_image(op) }, 1 + n1 + n2 + n3),
                            ),
                        },
                    },
                },
                OperandShape::Constant => if i + 2 >= bytes.len() {
                    Err(DecodingError::UnexpectedEOF)
                } else {
                    match spec_vlq_decode(bytes, i + 3) {
                        Err(e) => Err(e),
                        Ok((z, n)) => Ok(
                            (
                                InstrImage {
                                    value: spec_unzigzag(z),
                                    flag: bytes[i + 1] != 0,
                                    bits: bytes[i + 2],
                                    ..blank_image(op)
                                },
                                3 + n,
                            ),
                        ),
                    }
                },
                OperandShape::TypeOnly => if i + 2 >= bytes.len() {
                    Err(DecodingError::UnexpectedEOF)
                } else {
                    Ok(
                        (
                            InstrImage {
                                flag: bytes[i + 1] != 0,
                                bits: bytes[i + 2],
                                ..blank_image(op)
                            },
                            3,
                        ),
                    )
                },
                OperandShape::Text => match spec_decode_bytes(bytes, i + 1) {
                    Err(e) => Err(e),
                    Ok((bs, n)) => if !valid_utf8(bs) {
                        Err(DecodingError::UTF8Error)
                    } else {
                        Ok((InstrImage { bytes: bs, ..blank_image(op) }, 1 + n))
                    },
                },
                OperandShape::TextInt => match spec_decode_bytes(bytes, i + 1) {
                    Err(e) => Err(e),
                    Ok((bs, n1)) => if !valid_utf8(bs) {
                        Err(DecodingError::UTF8Error)
                    } else {
                        match spec_decode_int(bytes, i + 1 + n1) {
                            Err(e) => Err(e),
                            Ok((a, n2)) => Ok(
                                (InstrImage { a, bytes: bs, ..blank_image(op) }, 1 + n1 + n2),
                            ),
                        }
                    },
                },
            }
        }
    }
}

/// Decoding one unsigned operand out of its canonical encoding.
proof fn lemma_int_round_trip(x: usize, prefix: Seq<u8>, rest: Seq<u8>)
    ensures
        spec_decode_int(prefix + spec_vlq_encode(x as u128) + rest, prefix.len() as int) == Ok::<
            (usize, int),
            DecodingError,
        >((x, spec_vlq_encode(x as u128).len() as int)),
{
    lemma_vlq_round_trip(x as u128, prefix, rest);
}

/// Round trip of the codec: decoding the encoding of any representable
/// image, with anything after it, yields the image back and consumes exactly
/// the encoding's bytes.
#[verifier::rlimit(100)]
#[verifier::spinoff_prover]
pub proof fn lemma_image_round_trip(m: InstrImage, prefix: Seq<u8>, rest: Seq<u8>)
    requires
        image_wf(m),
    ensures
        spec_decode_image(prefix + spec_encode_image(m) + rest, prefix.len() as int) == Ok::<
            (InstrImage, int),
            DecodingError,
        >((m, spec_encode_image(m).len() as int)),
{
    let all = prefix + spec_encode_image(m) + rest;
    let i0 = prefix.len() as int;
    let sh = opcode_shape(m.op);
    assert(all[i0] == m.op);
    match sh {
        OperandShape::Empty => {
            assert(m =~= blank_image(m.op));
        },
        OperandShape::OneInt => {
            let ea = spec_vlq_encode(m.a as u128);
            assert(all =~= (prefix + seq![m.op]) + ea + rest);
            lemma_int_round_trip(m.a, prefix + seq![m.op], rest);
            assert(m =~= InstrImage { a: m.a, ..blank_image(m.op) });
        },
        OperandShape::TwoInts => {
            let ea = spec_vlq_encode(m.a as u128);
            let eb = spec_vlq_encode(m.b as u128);
            assert(all =~= (prefix + seq![m.op]) + ea + (eb + rest));
            lemma_int_round_trip(m.a, prefix + seq![m.op], eb + rest);
            assert(all =~= (prefix + seq![m.op] + ea) + eb + rest);
            lemma_int_round_trip(m.b, prefix + seq![m.op] + ea, rest);
            assert(m =~= InstrImage { a: m.a, b: m.b, ..blank_image(m.op) });
        },
        OperandShape::ThreeInts => {
            let ea = spec_vlq_encode(m.a as u128);
            let eb = spec_vlq_encode(m.b as u128);
            let ec = spec_vlq_encode(m.c as u128);
            assert(all =~= (prefix + seq![m.op]) + ea + (eb + ec + rest));
            lemma_int_round_trip(m.a, prefix + seq![m.op], eb + ec + rest);
            assert(all =~= (prefix + seq![m.op] + ea) + eb + (ec + rest));
            lemma_int_round_trip(m.b, prefix + seq![m.op] + ea, ec + rest);
            assert(all =~= (prefix + seq![m.op] + ea + eb) + ec + rest);
            lemma_int_round_trip(m.c, prefix + seq![m.op] + ea + eb, rest);
            assert(m =~= InstrImage { a: m.a, b: m.b, c: m.c, ..blank_image(m.op) });
        },
        OperandShape::Constant => {
            let flag_byte: u8 = if m.flag { 1u8 } else { 0u8 };
            let ez = spec_vlq_encode(spec_zigzag(m.value));
            assert(all =~= (prefix + seq![m.op, flag_byte, m.bits]) + ez + rest);
            assert(all[i0 + 1] == flag_byte && all[i0 + 2] == m.bits);
            lemma_vlq_round_trip(
                spec_zigzag(m.value),
                prefix + seq![m.op, flag_byte, m.bits],
                rest,
            );
            lemma_zigzag_round_trip(m.value);
            assert(m =~= InstrImage {
                value: m.value,
                flag: m.flag,
                bits: m.bits,
                ..blank_image(m.op)
            });
        },
        OperandShape::TypeOnly => {
            let flag_byte: u8 = if m.flag { 1u8 } else { 0u8 };
            assert(all =~= prefix + seq![m.op, flag_byte, m.bits] + rest);
            assert(all[i0 + 1] == flag_byte && all[i0 + 2] == m.bits);
            assert(m =~= InstrImage { flag: m.flag, bits: m.bits, ..blank_image(m.op) });
        },
        OperandShape::Text => {
            let el = spec_vlq_encode(m.bytes.len() as u128);
            assert(all =~= (prefix + seq![m.op]) + el + (m.bytes + rest));
            lemma_int_round_trip(m.bytes.len() as usize, prefix + seq![m.op], m.bytes + rest);
            let n = el.len() as int;
            assert(all.subrange(i0 + 1 + n, i0 + 1 + n + m.bytes.len() as int) =~= m.bytes);
            assert(m =~= InstrImage { bytes: m.bytes, ..blank_image(m.op) });
        },
        OperandShape::TextInt => {
            let el = spec_vlq_encode(m.bytes.len() as u128);
            let ea = spec_vlq_encode(m.a as u128);
            assert(all =~= (prefix + seq![m.op]) + el + (m.bytes + ea + rest));
            lemma_int_round_trip(m.bytes.len() as usize, prefix + seq![m.op], m.bytes + ea + rest);
            let n = el.len() as int;
            assert(all.subrange(i0 + 1 + n, i0 + 1 + n + m.bytes.len() as int) =~= m.bytes);
            assert(all =~= (prefix + seq![m.op] + el + m.bytes) + ea + rest);
            lemma_int_round_trip(m.a, prefix + seq![m.op] + el + m.bytes, rest);
            assert(m =~= InstrImage { a: m.a, bytes: m.bytes, ..blank_image(m.op) });
        },
    }
}


impl Instruction {
    /// The flat image of this instruction on the wire.
    pub open spec fn image(self) -> InstrImage {
        match self {
            Instruction::NoOperation => blank_image(0),
            Instruction::PushConst { value, is_signed, bit_length } => InstrImage {
                value,
                flag: is_signed,
                bits: bit_length,
                ..blank_image(1)
            },
            Instruction::Pop { count } => InstrImage { a: count, ..blank_image(2) },
            Instruction::Slice { total, len } => InstrImage { a: total, b: len, ..blank_image(3) },
            Instruction::Swap => blank_image(4),
            Instruction::Load { address } => InstrImage { a: address, ..blank_image(5) },
            Instruction::LoadSequence { address, len } => InstrImage {
                a: address,
                b: len,
                ..blank_image(6)
            },
            Instruction::LoadByIndex { address, bound } => InstrImage {
                a: address,
                b: bound,
                ..blank_image(7)
            },
            Instruction::LoadSequenceByIndex { address, bound, seq_len } => InstrImage {
                a: address,
                b: bound,
                c: seq_len,
                ..blank_image(8)
            },
            Instruction::Store { address } => InstrImage { a: address, ..blank_image(9) },
            Instruction::StoreSequence { address, len } => InstrImage {
                a: address,
                b: len,
                ..blank_image(10)
            },
            Instruction::StoreByIndex { address, bound } => InstrImage {
                a: address,
                b: bound,
                ..blank_image(11)
            },
            Instruction::StoreSequenceByIndex { address, bound, seq_len } => InstrImage {
                a: address,
                b: bound,
                c: seq_len,
                ..blank_image(12)
            },
            Instruction::LoadGlobal { address } => InstrImage { a: address, ..blank_image(13) },
            Instruction::LoadSequenceGlobal { address, len } => InstrImage {
                a: address,
                b: len,
                ..blank_image(14)
            },
            Instruction::LoadByIndexGlobal { address, bound } => InstrImage {
                a: address,
                b: bound,
                ..blank_image(15)
            },
            Instruction::LoadSequenceByIndexGlobal { address, bound, seq_len } => InstrImage {
                a: address,
                b: bound,
                c: seq_len,
                ..blank_image(16)
            },
            Instruction::StoreGlobal { address } => InstrImage { a: address, ..blank_image(17) },
            Instruction::StoreSequenceGlobal { address, len } => InstrImage {
                a: address,
                b: len,
                ..blank_image(18)
            },
            Instruction::Ref { address } => InstrImage { a: address, ..blank_image(19) },
            Instruction::RefGlobal { address } => InstrImage { a: address, ..blank_image(20) },
            Instruction::LoadByRef => blank_image(21),
            Instruction::LoadSequenceByRef { len } => InstrImage { a: len, ..blank_image(22) },
            Instruction::LoadByIndexByRef { bound } => InstrImage { a: bound, ..blank_image(23) },
            Instruction::LoadSequenceByIndexByRef { bound, seq_len } => InstrImage {
                a: bound,
                b: seq_len,
                ..blank_image(24)
            },
            Instruction::StoreByRef => blank_image(25),
            Instruction::StoreSequenceByRef { len } => InstrImage { a: len, ..blank_image(26) },
            Instruction::StoreByIndexByRef { bound } => InstrImage { a: bound, ..blank_image(27) },
            Instruction::StoreSequenceByIndexByRef { bound, seq_len } => InstrImage {
                a: bound,
                b: seq_len,
                ..blank_image(28)
            },
            Instruction::Add => blank_image(29),
            Instruction::Sub => blank_image(30),
            Instruction::Mul => blank_image(31),
            Instruction::Div => blank_image(32),
            Instruction::Rem => blank_image(33),
            Instruction::Neg => blank_image(34),
            Instruction::Not => blank_image(35),
            Instruction::And => blank_image(36),
            Instruction::Or => blank_image(37),
            Instruction::Xor => blank_image(38),
            Instruction::Lt => blank_image(39),
            Instruction::Le => blank_image(40),
            Instruction::Eq => blank_image(41),
            Instruction::Ne => blank_image(42),
            Instruction::Ge => blank_image(43),
            Instruction::Gt => blank_image(44),
            Instruction::Cast { is_signed, bit_length } => InstrImage {
                flag: is_signed,
                bits: bit_length,
                ..blank_image(45)
            },
            Instruction::If => blank_image(46),
            Instruction::Else => blank_image(47),
            Instruction::EndIf => blank_image(48),
            Instruction::LoopBegin { iterations } => InstrImage {
                a: iterations,
                ..blank_image(49)
            },
            Instruction::LoopEnd => blank_image(50),
            Instruction::Call { address, inputs } => InstrImage {
                a: address,
                b: inputs,
                ..blank_image(51)
            },
            Instruction::Return { outputs } => InstrImage { a: outputs, ..blank_image(52) },
            Instruction::CallBuiltin { identifier, inputs, outputs } => InstrImage {
                a: identifier,
                b: inputs,
                c: outputs,
                ..blank_image(53)
            },
            Instruction::Assert => blank_image(54),
            Instruction::Dbg { string, nargs } => InstrImage {
                a: nargs,
                bytes: encode_utf8(string@),
                ..blank_image(55)
            },
            Instruction::Exit { outputs } => InstrImage { a: outputs, ..blank_image(56) },
            Instruction::FileMarker { file } => InstrImage {
                bytes: encode_utf8(file@),
                ..blank_image(57)
            },
            Instruction::FunctionMarker { name } => InstrImage {
                bytes: encode_utf8(name@),
                ..blank_image(58)
            },
            Instruction::LineMarker { line } => InstrImage { a: line, ..blank_image(59) },
            Instruction::ColumnMarker { column } => InstrImage { a: column, ..blank_image(60) },
        }
    }
}

/// A well-formed instruction always has a representable image.
pub proof fn lemma_instruction_image_wf(i: Instruction)
    requires
        i.wf(),
    ensures
        image_wf(i.image()),
{
    broadcast use encode_utf8_valid_utf8;

}

/// Round trip of the instruction codec: the encoding of any well-formed
/// instruction, followed by anything, decodes to the instruction's image and
/// consumes exactly the encoding's bytes.
pub proof fn lemma_codec_round_trip(i: Instruction, rest: Seq<u8>)
    requires
        i.wf(),
    ensures
        spec_decode_image(spec_encode_image(i.image()) + rest, 0) == Ok::<
            (InstrImage, int),
            DecodingError,
        >((i.image(), spec_encode_image(i.image()).len() as int)),
{
    lemma_instruction_image_wf(i);
    lemma_image_round_trip(i.image(), Seq::empty(), rest);
    assert(Seq::empty() + spec_encode_image(i.image()) + rest =~= spec_encode_image(i.image())
        + rest);
}

/// Zigzag folding, executable form.
fn zigzag(v: i128) -> (r: u128)
    ensures
        r == spec_zigzag(v),
{
    if v >= 0 {
        (v as u128) * 2
    } else {
        ((-(v + 1)) as u128) * 2 + 1
    }
}

/// Inverse zigzag folding, executable form.
fn unzigzag(z: u128) -> (r: i128)
    ensures
        r == spec_unzigzag(z),
{
    if z % 2 == 0 {
        (z / 2) as i128
    } else {
        -(((z - 1) / 2) as i128) - 1
    }
}

/// Appends a byte run to the output.
fn push_bytes(out: &mut Vec<u8>, bs: &[u8])
    ensures
        final(out)@ == old(out)@ + bs@,
{
    let mut i: usize = 0;
    while i < bs.len()
        invariant
            i <= bs@.len(),
            out@ == old(out)@ + bs@.take(i as int),
        decreases bs@.len() - i,
    {
        out.push(bs[i]);
        assert(out@ =~= old(out)@ + bs@.take(i + 1));
        i = i + 1;
    }
    assert(out@ =~= old(out)@ + bs@);
}

fn enc_empty(op: u8, out: &mut Vec<u8>)
    requires
        opcode_shape(op) is Empty,
    ensures
        final(out)@ == old(out)@ + spec_encode_image(blank_image(op)),
{
    out.push(op);
    assert(out@ =~= old(out)@ + spec_encode_image(blank_image(op)));
}

fn enc_u1(op: u8, a: usize, out: &mut Vec<u8>)
    requires
        opcode_shape(op) is OneInt,
    ensures
        final(out)@ == old(out)@ + spec_encode_image(InstrImage { a, ..blank_image(op) }),
{
    out.push(op);
    vlq_encode(a as u128, out);
    assert(out@ =~= old(out)@ + spec_encode_image(InstrImage { a, ..blank_image(op) }));
}

fn enc_u2(op: u8, a: usize, b: usize, out: &mut Vec<u8>)
    requires
        opcode_shape(op) is TwoInts,
    ensures
        final(out)@ == old(out)@ + spec_encode_image(InstrImage { a, b, ..blank_image(op) }),
{
    out.push(op);
    vlq_encode(a as u128, out);
    vlq_encode(b as u128, out);
    assert(out@ =~= old(out)@ + spec_encode_image(InstrImage { a, b, ..blank_image(op) }));
}

fn enc_u3(op: u8, a: usize, b: usize, c: usize, out: &mut Vec<u8>)
    requires
        opcode_shape(op) is ThreeInts,
    ensures
        final(out)@ == old(out)@ + spec_encode_image(InstrImage { a, b, c, ..blank_image(op) }),
{
    out.push(op);
    vlq_encode(a as u128, out);
    vlq_encode(b as u128, out);
    vlq_encode(c as u128, out);
    assert(out@ =~= old(out)@ + spec_encode_image(InstrImage { a, b, c, ..blank_image(op) }));
}

fn enc_const(op: u8, value: i128, flag: bool, bits: u8, out: &mut Vec<u8>)
    requires
        opcode_shape(op) is Constant,
    ensures
        final(out)@ == old(out)@ + spec_encode_image(
            InstrImage { value, flag, bits, ..blank_image(op) },
        ),
{
    out.push(op);
    out.push(if flag { 1u8 } else { 0u8 });
    out.push(bits);
    let z = zigzag(value);
    vlq_encode(z, out);
    assert(out@ =~= old(out)@ + spec_encode_image(
        InstrImage { value, flag, bits, ..blank_image(op) },
    ));
}

fn enc_type(op: u8, flag: bool, bits: u8, out: &mut Vec<u8>)
    requires
        opcode_shape(op) is TypeOnly,
    ensures
        final(out)@ == old(out)@ + spec_encode_image(
            InstrImage { flag, bits, ..blank_image(op) },
        ),
{
    out.push(op);
    out.push(if flag { 1u8 } else { 0u8 });
    out.push(bits);
    assert(out@ =~= old(out)@ + spec_encode_image(InstrImage { flag, bits, ..blank_image(op) }));
}

fn enc_text(op: u8, s: &str, out: &mut Vec<u8>)
    requires
        opcode_shape(op) is Text,
    ensures
        final(out)@ == old(out)@ + spec_encode_image(
            InstrImage { bytes: encode_utf8(s@), ..blank_image(op) },
        ),
{
    out.push(op);
    let bs = s.as_bytes();
    vlq_encode(bs.len() as u128, out);
    push_bytes(out, bs);
    assert(out@ =~= old(out)@ + spec_encode_image(
        InstrImage { bytes: encode_utf8(s@), ..blank_image(op) },
    ));
}

fn enc_text_u1(op: u8, s: &str, a: usize, out: &mut Vec<u8>)
    requires
        opcode_shape(op) is TextInt,
    ensures
        final(out)@ == old(out)@ + spec_encode_image(
            InstrImage { a, bytes: encode_utf8(s@), ..blank_image(op) },
        ),
{
    out.push(op);
    let bs = s.as_bytes();
    vlq_encode(bs.len() as u128, out);
    push_bytes(out, bs);
    vlq_encode(a as u128, out);
    assert(out@ =~= old(out)@ + spec_encode_image(
        InstrImage { a, bytes: encode_utf8(s@), ..blank_image(op) },
    ));
}

/// Appends the binary encoding of one instruction to `out`.
pub fn encode_instruction(i: &Instruction, out: &mut Vec<u8>)
    ensures
        final(out)@ == old(out)@ + spec_encode_image(i.image()),
{
    match i {
        Instruction::NoOperation => enc_empty(0, out),
        Instruction::PushConst { value, is_signed, bit_length } => enc_const(
            1,
            *value,
            *is_signed,
            *bit_length,
            out,
        ),
        Instruction::Pop { count } => enc_u1(2, *count, out),
        Instruction::Slice { total, len } => enc_u2(3, *total, *len, out),
        Instruction::Swap => enc_empty(4, out),
        Instruction::Load { address } => enc_u1(5, *address, out),
        Instruction::LoadSequence { address, len } => enc_u2(6, *address, *len, out),
        Instruction::LoadByIndex { address, bound } => enc_u2(7, *address, *bound, out),
        Instruction::LoadSequenceByIndex { address, bound, seq_len } => enc_u3(
            8,
            *address,
            *bound,
            *seq_len,
            out,
        ),
        Instruction::Store { address } => enc_u1(9, *address, out),
        Instruction::StoreSequence { address, len } => enc_u2(10, *address, *len, out),
        Instruction::StoreByIndex { address, bound } => enc_u2(11, *address, *bound, out),
        Instruction::StoreSequenceByIndex { address, bound, seq_len } => enc_u3(
            12,
            *address,
            *bound,
            *seq_len,
            out,
        ),
        Instruction::LoadGlobal { address } => enc_u1(13, *address, out),
        Instruction::LoadSequenceGlobal { address, len } => enc_u2(14, *address, *len, out),
        Instruction::LoadByIndexGlobal { address, bound } => enc_u2(15, *address, *bound, out),
        Instruction::LoadSequenceByIndexGlobal { address, bound, seq_len } => enc_u3(
            16,
            *address,
            *bound,
            *seq_len,
            out,
        ),
        Instruction::StoreGlobal { address } => enc_u1(17, *address, out),
        Instruction::StoreSequenceGlobal { address, len } => enc_u2(18, *address, *len, out),
        Instruction::Ref { address } => enc_u1(19, *address, out),
        Instruction::RefGlobal { address } => enc_u1(20, *address, out),
        Instruction::LoadByRef => enc_empty(21, out),
        Instruction::LoadSequenceByRef { len } => enc_u1(22, *len, out),
        Instruction::LoadByIndexByRef { bound } => enc_u1(23, *bound, out),
        Instruction::LoadSequenceByIndexByRef { bound, seq_len } => enc_u2(
            24,
            *bound,
            *seq_len,
            out,
        ),
        Instruction::StoreByRef => enc_empty(25, out),
        Instruction::StoreSequenceByRef { len } => enc_u1(26, *len, out),
        Instruction::StoreByIndexByRef { bound } => enc_u1(27, *bound, out),
        Instruction::StoreSequenceByIndexByRef { bound, seq_len } => enc_u2(
            28,
            *bound,
            *seq_len,
            out,
        ),
        Instruction::Add => enc_empty(29, out),
        Instruction::Sub => enc_empty(30, out),
        Instruction::Mul => enc_empty(31, out),
        Instruction::Div => enc_empty(32, out),
        Instruction::Rem => enc_empty(33, out),
        Instruction::Neg => enc_empty(34, out),
        Instruction::Not => enc_empty(35, out),
        Instruction::And => enc_empty(36, out),
        Instruction::Or => enc_empty(37, out),
        Instruction::Xor => enc_empty(38, out),
        Instruction::Lt => enc_empty(39, out),
        Instruction::Le => enc_empty(40, out),
        Instruction::Eq => enc_empty(41, out),
        Instruction::Ne => enc_empty(42, out),
        Instruction::Ge => enc_empty(43, out),
        Instruction::Gt => enc_empty(44, out),
        Instruction::Cast { is_signed, bit_length } => enc_type(45, *is_signed, *bit_length, out),
        Instruction::If => enc_empty(46, out),
        Instruction::Else => enc_empty(47, out),
        Instruction::EndIf => enc_empty(48, out),
        Instruction::LoopBegin { iterations } => enc_u1(49, *iterations, out),
        Instruction::LoopEnd => enc_empty(50, out),
        Instruction::Call { address, inputs } => enc_u2(51, *address, *inputs, out),
        Instruction::Return { outputs } => enc_u1(52, *outputs, out),
        Instruction::CallBuiltin { identifier, inputs, outputs } => enc_u3(
            53,
            *identifier,
            *inputs,
            *outputs,
            out,
        ),
        Instruction::Assert => enc_empty(54, out),
        Instruction::Dbg { string, nargs } => enc_text_u1(55, string.as_str(), *nargs, out),
        Instruction::Exit { outputs } => enc_u1(56, *outputs, out),
        Instruction::FileMarker { file } => enc_text(57, file.as_str(), out),
        Instruction::FunctionMarker { name } => enc_text(58, name.as_str(), out),
        Instruction::LineMarker { line } => enc_u1(59, *line, out),
        Instruction::ColumnMarker { column } => enc_u1(60, *column, out),
    }
}


/// Relies on String::from_utf8: it succeeds exactly on valid UTF-8 input and
/// the resulting string's UTF-8 bytes are the input bytes.
#[verifier::external_body]
fn string_from_utf8(bytes: Vec<u8>) -> (r: Option<String>)
    ensures
        match r {
            Some(s) => valid_utf8(bytes@) && encode_utf8(s@) == bytes@,
            None => !valid_utf8(bytes@),
        },
{
    match String::from_utf8(bytes) {
        Ok(s) => Some(s),
        Err(_) => None,
    }
}

/// Decodes one unsigned operand that must fit an address.
fn dec_int(bytes: &Vec<u8>, i: usize) -> (r: Result<(usize, usize), DecodingError>)
    ensures
        match r {
            Ok((v, n)) => spec_decode_int(bytes@, i as int) == Ok::<(usize, int), DecodingError>(
                (v, n as int),
            ) && i + n <= bytes@.len() && n >= 1,
            Err(e) => spec_decode_int(bytes@, i as int) == Err::<(usize, int), DecodingError>(e),
        },
{
    match vlq_decode(bytes, i) {
        Err(e) => Err(e),
        Ok((v, n)) => {
            if v > usize::MAX as u128 {
                Err(DecodingError::ConstantTooLong)
            } else {
                Ok((v as usize, n))
            }
        },
    }
}

/// Copies `len` bytes starting at `start` into a fresh vector.
fn take_bytes(bytes: &Vec<u8>, start: usize, len: usize) -> (r: Vec<u8>)
    requires
        start + len <= bytes@.len(),
    ensures
        r@ == bytes@.subrange(start as int, start as int + len as int),
{
    let total = bytes.len();
    let mut r: Vec<u8> = Vec::new();
    let mut j: usize = 0;
    while j < len
        invariant
            j <= len,
            start + len <= total,
            total == bytes@.len(),
            r@ == bytes@.subrange(start as int, start as int + j as int),
        decreases len - j,
    {
        r.push(bytes[start + j]);
        assert(r@ =~= bytes@.subrange(start as int, start as int + j + 1));
        j = j + 1;
    }
    r
}

/// The operand shape of an opcode, executable form.
fn shape_of(op: u8) -> (s: OperandShape)
    ensures
        s == opcode_shape(op),
{
    if op == 1 {
        OperandShape::Constant
    } else if op == 45 {
        OperandShape::TypeOnly
    } else if op == 55 {
        OperandShape::TextInt
    } else if op == 57 || op == 58 {
        OperandShape::Text
    } else if op == 3 || op == 6 || op == 7 || op == 10 || op == 11 || op == 14 || op == 15
        || op == 18 || op == 24 || op == 28 || op == 51 {
        OperandShape::TwoInts
    } else if op == 8 || op == 12 || op == 16 || op == 53 {
        OperandShape::ThreeInts
    } else if op == 2 || op == 5 || op == 9 || op == 13 || op == 17 || op == 19 || op == 20
        || op == 22 || op == 23 || op == 26 || op == 27 || op == 49 || op == 52 || op == 56
        || op == 59 || op == 60 {
        OperandShape::OneInt
    } else {
        OperandShape::Empty
    }
}

/// Builds the instruction of an operand-free opcode.
fn build_empty(op: u8) -> (r: Instruction)
    requires
        op <= 60,
        opcode_shape(op) is Empty,
    ensures
        r.image() == blank_image(op),
{
    if op == 0 {
        Instruction::NoOperation
    } else if op == 4 {
        Instruction::Swap
    } else if op == 21 {
        Instruction::LoadByRef
    } else if op == 25 {
        Instruction::StoreByRef
    } else if op == 29 {
        Instruction::Add
    } else if op == 30 {
        Instruction::Sub
    } else if op == 31 {
        Instruction::Mul
    } else if op == 32 {
        Instruction::Div
    } else if op == 33 {
        Instruction::Rem
    } else if op == 34 {
        Instruction::Neg
    } else if op == 35 {
        Instruction::Not
    } else if op == 36 {
        Instruction::And
    } else if op == 37 {
        Instruction::Or
    } else if op == 38 {
        Instruction::Xor
    } else if op == 39 {
        Instruction::Lt
    } else if op == 40 {
        Instruction::Le
    } else if op == 41 {
        Instruction::Eq
    } else if op == 42 {
        Instruction::Ne
    } else if op == 43 {
        Instruction::Ge
    } else if op == 44 {
        Instruction::Gt
    } else if op == 46 {
        Instruction::If
    } else if op == 47 {
        Instruction::Else
    } else if op == 48 {
        Instruction::EndIf
    } else if op == 50 {
        Instruction::LoopEnd
    } else {
        assert(op == 54);
        Instruction::Assert
    }
}

/// Builds the instruction of a one-operand opcode.
fn build_u1(op: u8, a: usize) -> (r: Instruction)
    requires
        op <= 60,
        opcode_shape(op) is OneInt,
    ensures
        r.image() == (InstrImage { a, ..blank_image(op) }),
{
    if op == 2 {
        Instruction::Pop { count: a }
    } else if op == 5 {
        Instruction::Load { address: a }
    } else if op == 9 {
        Instruction::Store { address: a }
    } else if op == 13 {
        Instruction::LoadGlobal { address: a }
    } else if op == 17 {
        Instruction::StoreGlobal { address: a }
    } else if op == 19 {
        Instruction::Ref { address: a }
    } else if op == 20 {
        Instruction::RefGlobal { address: a }
    } else if op == 22 {
        Instruction::LoadSequenceByRef { len: a }
    } else if op == 23 {
        Instruction::LoadByIndexByRef { bound: a }
    } else if op == 26 {
        Instruction::StoreSequenceByRef { len: a }
    } else if op == 27 {
        Instruction::StoreByIndexByRef { bound: a }
    } else if op == 49 {
        Instruction::LoopBegin { iterations: a }
    } else if op == 52 {
        Instruction::Return { outputs: a }
    } else if op == 56 {
        Instruction::Exit { outputs: a }
    } else if op == 59 {
        Instruction::LineMarker { line: a }
    } else {
        assert(op == 60);
        Instruction::ColumnMarker { column: a }
    }
}

/// Builds the instruction of a two-operand opcode.
fn build_u2(op: u8, a: usize, b: usize) -> (r: Instruction)
    requires
        op <= 60,
        opcode_shape(op) is TwoInts,
    ensures
        r.image() == (InstrImage { a, b, ..blank_image(op) }),
{
    if op == 3 {
        Instruction::Slice { total: a, len: b }
    } else if op == 6 {
        Instruction::LoadSequence { address: a, len: b }
    } else if op == 7 {
        Instruction::LoadByIndex { address: a, bound: b }
    } else if op == 10 {
        Instruction::StoreSequence { address: a, len: b }
    } else if op == 11 {
        Instruction::StoreByIndex { address: a, bound: b }
    } else if op == 14 {
        Instruction::LoadSequenceGlobal { address: a, len: b }
    } else if op == 15 {
        Instruction::LoadByIndexGlobal { address: a, bound: b }
    } else if op == 18 {
        Instruction::StoreSequenceGlobal { address: a, len: b }
    } else if op == 24 {
        Instruction::LoadSequenceByIndexByRef { bound: a, seq_len: b }
    } else if op == 28 {
        Instruction::StoreSequenceByIndexByRef { bound: a, seq_len: b }
    } else {
        assert(op == 51);
        Instruction::Call { address: a, inputs: b }
    }
}

/// Builds the instruction of a three-operand opcode.
fn build_u3(op: u8, a: usize, b: usize, c: usize) -> (r: Instruction)
    requires
        op <= 60,
        opcode_shape(op) is ThreeInts,
    ensures
        r.image() == (InstrImage { a, b, c, ..blank_image(op) }),
{
    if op == 8 {
        Instruction::LoadSequenceByIndex { address: a, bound: b, seq_len: c }
    } else if op == 12 {
        Instruction::StoreSequenceByIndex { address: a, bound: b, seq_len: c }
    } else if op == 16 {
        Instruction::LoadSequenceByIndexGlobal { address: a, bound: b, seq_len: c }
    } else {
        assert(op == 53);
        Instruction::CallBuiltin { identifier: a, inputs: b, outputs: c }
    }
}

/// Decodes one instruction starting at `bytes[i]`: the instruction and the
/// count of bytes consumed, or the decode error, exactly as the
/// specification-level decoding prescribes.
pub fn decode_instruction(bytes: &Vec<u8>, i: usize) -> (r: Result<
    (Instruction, usize),
    DecodingError,
>)
    ensures
        match r {
            Ok((ins, n)) => spec_decode_image(bytes@, i as int) == Ok::<
                (InstrImage, int),
                DecodingError,
            >((ins.image(), n as int)) && n >= 1 && i + n <= bytes@.len(),
            Err(e) => spec_decode_image(bytes@, i as int) == Err::<(InstrImage, int), DecodingError>(
                e,
            ),
        },
{
    if i >= bytes.len() {
        return Err(DecodingError::UnexpectedEOF);
    }
    let op = bytes[i];
    if op > 60 {
        return Err(DecodingError::UnknownInstructionCode(op));
    }
    match shape_of(op) {
        OperandShape::Empty => Ok((build_empty(op), 1)),
        OperandShape::OneInt => match dec_int(bytes, i + 1) {
            Err(e) => Err(e),
            Ok((a, n)) => Ok((build_u1(op, a), 1 + n)),
        },
        OperandShape::TwoInts => match dec_int(bytes, i + 1) {
            Err(e) => Err(e),
            Ok((a, n1)) => match dec_int(bytes, i + 1 + n1) {
                Err(e) => Err(e),
                Ok((b, n2)) => Ok((build_u2(op, a, b), 1 + n1 + n2)),
            },
        },
        OperandShape::ThreeInts => match dec_int(bytes, i + 1) {
            Err(e) => Err(e),
            Ok((a, n1)) => match dec_int(bytes, i + 1 + n1) {
                Err(e) => Err(e),
                Ok((b, n2)) => match dec_int(bytes, i + 1 + n1 + n2) {
                    Err(e) => Err(e),
                    Ok((c, n3)) => Ok((build_u3(op, a, b, c), 1 + n1 + n2 + n3)),
                },
            },
        },
        OperandShape::Constant => {
            if bytes.len() - i < 3 {
                Err(DecodingError::UnexpectedEOF)
            } else {
                let flag = bytes[i + 1] != 0;
                let bits = bytes[i + 2];
                match vlq_decode(bytes, i + 3) {
                    Err(e) => Err(e),
                    Ok((z, n)) => {
                        let value = unzigzag(z);
                        Ok((Instruction::PushConst { value, is_signed: flag, bit_length: bits },
                            3 + n))
                    },
                }
            }
        },
        OperandShape::TypeOnly => {
            if bytes.len() - i < 3 {
                Err(DecodingError::UnexpectedEOF)
            } else {
                let flag = bytes[i + 1] != 0;
                let bits = bytes[i + 2];
                Ok((Instruction::Cast { is_signed: flag, bit_length: bits }, 3))
            }
        },
        OperandShape::Text => match dec_int(bytes, i + 1) {
            Err(e) => Err(e),
            Ok((len2, n1)) => {
                if len2 > MAX_CONSTANT_LENGTH {
                    Err(DecodingError::ConstantTooLong)
                } else if len2 > bytes.len() - (i + 1 + n1) {
                    Err(DecodingError::UnexpectedEOF)
                } else {
                    let bs = take_bytes(bytes, i + 1 + n1, len2);
                    match string_from_utf8(bs) {
                        None => Err(DecodingError::UTF8Error),
                        Some(text) => {
                            let ins = if op == 57 {
                                Instruction::FileMarker { file: text }
                            } else {
                                Instruction::FunctionMarker { name: text }
                            };
                            Ok((ins, 1 + n1 + len2))
                        },
                    }
                }
            },
        },
        OperandShape::TextInt => match dec_int(bytes, i + 1) {
            Err(e) => Err(e),
            Ok((len2, n1)) => {
                if len2 > MAX_CONSTANT_LENGTH {
                    Err(DecodingError::ConstantTooLong)
                } else if len2 > bytes.len() - (i + 1 + n1) {
                    Err(DecodingError::UnexpectedEOF)
                } else {
                    let bs = take_bytes(bytes, i + 1 + n1, len2);
                    match string_from_utf8(bs) {
                        None => Err(DecodingError::UTF8Error),
                        Some(text) => match dec_int(bytes, i + 1 + n1 + len2) {
                            Err(e) => Err(e),
                            Ok((a, n2)) => Ok(
                                (Instruction::Dbg { string: text, nargs: a }, 1 + n1 + len2 + n2),
                            ),
                        },
                    }
                }
            },
        },
    }
}


/// The images of a decoded instruction list.
pub open spec fn images_of(s: Seq<Instruction>) -> Seq<InstrImage> {
    s.map_values(|x: Instruction| x.image())
}

/// The whole-program encoding: the instruction encodings, one after another.
pub open spec fn spec_encode_program(s: Seq<InstrImage>) -> Seq<u8>
    decreases s.len(),
{
    if s.len() == 0 {
        Seq::empty()
    } else {
        spec_encode_image(s[0]) + spec_encode_program(s.drop_first())
    }
}

/// Whole-program decoding: instructions are decoded one after another until
/// the buffer is exhausted.
pub open spec fn spec_decode_program(bytes: Seq<u8>, i: int) -> Result<
    Seq<InstrImage>,
    DecodingError,
>
    decreases bytes.len() - i,
{
    if i >= bytes.len() {
        Ok(Seq::empty())
    } else {
        match spec_decode_image(bytes, i) {
            Err(e) => Err(e),
            Ok((m, n)) => if n < 1 || i + n > bytes.len() {
                Err(DecodingError::UnexpectedEOF)
            } else {
                match spec_decode_program(bytes, i + n) {
                    Err(e) => Err(e),
                    Ok(t) => Ok(seq![m] + t),
                }
            },
        }
    }
}

proof fn lemma_encode_program_snoc(s: Seq<InstrImage>, m: InstrImage)
    ensures
        spec_encode_program(s.push(m)) == spec_encode_program(s) + spec_encode_image(m),
    decreases s.len(),
{
    if s.len() == 0 {
        let p = s.push(m);
        assert(p.len() == 1);
        assert(p[0] == m);
        assert(p.drop_first() =~= Seq::<InstrImage>::empty());
        assert(spec_encode_program(p) == spec_encode_image(p[0]) + spec_encode_program(
            p.drop_first(),
        ));
        assert(spec_encode_program(p.drop_first()) == Seq::<u8>::empty());
        assert(spec_encode_image(m) + Seq::<u8>::empty() =~= spec_encode_image(m));
        assert(spec_encode_program(s) + spec_encode_image(m) =~= spec_encode_image(m));
    } else {
        lemma_encode_program_snoc(s.drop_first(), m);
        assert(s.push(m)[0] == s[0]);
        assert(s.push(m).drop_first() =~= s.drop_first().push(m));
        assert(spec_encode_program(s.push(m)) =~= spec_encode_program(s) + spec_encode_image(m));
    }
}

/// Round trip of the whole-program codec, at any starting offset.
#[verifier::rlimit(100)]
#[verifier::spinoff_prover]
proof fn lemma_program_round_trip_at(s: Seq<InstrImage>, prefix: Seq<u8>)
    requires
        forall|k: int| 0 <= k < s.len() ==> image_wf(#[trigger] s[k]),
    ensures
        spec_decode_program(prefix + spec_encode_program(s), prefix.len() as int) == Ok::<
            Seq<InstrImage>,
            DecodingError,
        >(s),
    decreases s.len(),
{
    let all = prefix + spec_encode_program(s);
    if s.len() == 0 {
        assert(all =~= prefix);
        assert(s =~= Seq::<InstrImage>::empty());
    } else {
        let e0 = spec_encode_image(s[0]);
        let rest = spec_encode_program(s.drop_first());
        assert(all =~= prefix + e0 + rest);
        lemma_image_round_trip(s[0], prefix, rest);
        assert(e0.len() >= 1) by {
            assert(e0 =~= seq![s[0].op] + spec_encode_operands(s[0]));
        }
        assert(forall|k: int|
            0 <= k < s.drop_first().len() ==> image_wf(#[trigger] s.drop_first()[k])) by {
            assert(forall|k: int|
                0 <= k < s.drop_first().len() ==> s.drop_first()[k] == s[k + 1]);
        }
        lemma_program_round_trip_at(s.drop_first(), prefix + e0);
        assert((prefix + e0) + rest =~= all);
        let i0 = prefix.len() as int;
        assert(spec_decode_image(all, i0) == Ok::<(InstrImage, int), DecodingError>(
            (s[0], e0.len() as int),
        ));
        assert(i0 + e0.len() <= all.len());
        assert(spec_decode_program(all, i0 + e0.len() as int) == Ok::<
            Seq<InstrImage>,
            DecodingError,
        >(s.drop_first()));
        assert(spec_decode_program(all, i0) == Ok::<Seq<InstrImage>, DecodingError>(
            seq![s[0]] + s.drop_first(),
        ));
        assert(seq![s[0]] + s.drop_first() =~= s);
    }
}

/// Round trip of the whole-program codec: decoding the encoding of any list
/// of representable images yields the list back.
pub proof fn lemma_program_round_trip(s: Seq<InstrImage>)
    requires
        forall|k: int| 0 <= k < s.len() ==> image_wf(#[trigger] s[k]),
    ensures
        spec_decode_program(spec_encode_program(s), 0) == Ok::<Seq<InstrImage>, DecodingError>(s),
{
    lemma_program_round_trip_at(s, Seq::empty());
    assert(Seq::empty() + spec_encode_program(s) =~= spec_encode_program(s));
}

/// Encodes a whole program.
pub fn encode_program(instrs: &Vec<Instruction>) -> (r: Vec<u8>)
    ensures
        r@ == spec_encode_program(images_of(instrs@)),
{
    let mut out: Vec<u8> = Vec::new();
    let mut i: usize = 0;
    while i < instrs.len()
        invariant
            i <= instrs@.len(),
            out@ == spec_encode_program(images_of(instrs@.take(i as int))),
        decreases instrs@.len() - i,
    {
        let ghost pre = images_of(instrs@.take(i as int));
        encode_instruction(&instrs[i], &mut out);
        proof {
            lemma_encode_program_snoc(pre, instrs@[i as int].image());
            assert(images_of(instrs@.take(i + 1)) =~= pre.push(instrs@[i as int].image()));
        }
        i = i + 1;
    }
    proof {
        assert(instrs@.take(instrs@.len() as int) =~= instrs@);
    }
    out
}

/// Decodes a whole program: one instruction after another until the buffer
/// is exhausted, exactly as the specification-level decoding prescribes.
pub fn decode_program(bytes: &Vec<u8>) -> (r: Result<Vec<Instruction>, DecodingError>)
    ensures
        match r {
            Ok(v) => spec_decode_program(bytes@, 0) == Ok::<Seq<InstrImage>, DecodingError>(
                images_of(v@),
            ),
            Err(e) => spec_decode_program(bytes@, 0) == Err::<Seq<InstrImage>, DecodingError>(e),
        },
{
    let mut acc: Vec<Instruction> = Vec::new();
    let mut off: usize = 0;
    while off < bytes.len()
        invariant
            off <= bytes@.len(),
            match spec_decode_program(bytes@, off as int) {
                Ok(t) => spec_decode_program(bytes@, 0) == Ok::<Seq<InstrImage>, DecodingError>(
                    images_of(acc@) + t,
                ),
                Err(e) => spec_decode_program(bytes@, 0) == Err::<Seq<InstrImage>, DecodingError>(
                    e,
                ),
            },
        decreases bytes@.len() - off,
    {
        let ghost pre = images_of(acc@);
        match decode_instruction(bytes, off) {
            Err(e) => {
                return Err(e);
            },
            Ok((ins, n)) => {
                acc.push(ins);
                proof {
                    assert(images_of(acc@) =~= pre.push(ins.image()));
                    match spec_decode_program(bytes@, off + n) {
                        Ok(t2) => {
                            assert(pre + (seq![ins.image()] + t2) =~= images_of(acc@) + t2);
                        },
                        Err(_) => {},
                    }
                }
                off = off + n;
            },
        }
    }
    proof {
        assert(images_of(acc@) + Seq::<InstrImage>::empty() =~= images_of(acc@));
    }
    Ok(acc)
}

/// Executable well-formedness test of one instruction.
pub fn check_instruction_wf(i: &Instruction) -> (r: bool)
    ensures
        r == i.wf(),
{
    match i {
        Instruction::PushConst { value, is_signed, bit_length } => {
            if crate::value::check_scalar_type(*is_signed, *bit_length) {
                crate::value::check_scalar_range(*is_signed, *bit_length, *value)
            } else {
                false
            }
        },
        Instruction::Cast { is_signed, bit_length } => crate::value::check_scalar_type(
            *is_signed,
            *bit_length,
        ),
        Instruction::Dbg { string, .. } => string.as_str().as_bytes().len()
            <= MAX_CONSTANT_LENGTH,
        Instruction::FileMarker { file } => file.as_str().as_bytes().len() <= MAX_CONSTANT_LENGTH,
        Instruction::FunctionMarker { name } => name.as_str().as_bytes().len()
            <= MAX_CONSTANT_LENGTH,
        _ => true,
    }
}

/// Executable well-formedness test of a whole program.
pub fn program_wf(instrs: &Vec<Instruction>) -> (r: bool)
    ensures
        r == forall|k: int| 0 <= k < instrs@.len() ==> (#[trigger] instrs@[k]).wf(),
{
    let mut i: usize = 0;
    while i < instrs.len()
        invariant
            i <= instrs@.len(),
            forall|k: int| 0 <= k < i ==> (#[trigger] instrs@[k]).wf(),
        decreases instrs@.len() - i,
    {
        if !check_instruction_wf(&instrs[i]) {
            return false;
        }
        i = i + 1;
    }
    true
}

} // verus!
