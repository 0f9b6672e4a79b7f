//! The script model: the opcode enumeration, push encoding under the
//! minimal and non-minimal policies, and (de)serialization.

use vstd::prelude::*;
use crate::serialize::{u16_le_bytes, u32_le_bytes, u16_of_le, u32_of_le, write_u16_le, write_u32_le, read_bytes};

verus! {

#[derive(Clone, Debug, Copy, Eq, PartialEq)]
pub enum OpCodeType {
    Op0,
    OpPushData1,
    OpPushData2,
    OpPushData4,
    Op1Negate,
    OpReserved,
    Op1,
    Op2,
    Op3,
    Op4,
    Op5,
    Op6,
    Op7,
    Op8,
    Op9,
    Op10,
    Op11,
    Op12,
    Op13,
    Op14,
    Op15,
    Op16,
    OpNop,
    OpVer,
    OpIf,
    OpNotIf,
    OpVerIf,
    OpVerNotIf,
    OpElse,
    OpEndIf,
    OpVerify,
    OpReturn,
    OpToAltStack,
    OpFromAltStack,
    Op2Drop,
    Op2Dup,
    Op3Dup,
    Op2Over,
    Op2Rot,
    Op2Swap,
    OpIfDup,
    OpDepth,
    OpDrop,
    OpDup,
    OpNip,
    OpOver,
    OpPick,
    OpRoll,
    OpRot,
    OpSwap,
    OpTuck,
    OpCat,
    OpSplit,
    OpNum2Bin,
    OpBin2Num,
    OpSize,
    OpInvert,
    OpAnd,
    OpOr,
    OpXor,
    OpEqual,
    OpEqualVerify,
    OpReserved1,
    OpReserved2,
    Op1Add,
    Op1Sub,
    Op2Mul,
    Op2Div,
    OpNegate,
    OpAbs,
    OpNot,
    Op0NotEqual,
    OpAdd,
    OpSub,
    OpMul,
    OpDiv,
    OpMod,
    OpLShift,
    OpRShift,
    OpBoolAnd,
    OpBoolOr,
    OpNumEqual,
    OpNumEqualVerify,
    OpNumNotEqual,
    OpLessThan,
    OpGreaterThan,
    OpLessThanOrEqual,
    OpGreaterThanOrEqual,
    OpMin,
    OpMax,
    OpWithin,
    OpRipemd160,
    OpSha1,
    OpSha256,
    OpHash160,
    OpHash256,
    OpCodeSeparator,
    OpCheckSig,
    OpCheckSigVerify,
    OpCheckMultiSig,
    OpCheckMultiSigVerify,
    OpNop1,
    OpCheckLockTimeVerify,
    OpCheckSequenceVerify,
    OpNop4,
    OpNop5,
    OpNop6,
    OpNop7,
    OpNop8,
    OpNop9,
    OpNop10,
    OpCheckDataSig,
    OpCheckDataSigVerify,
    FirstUndefinedOpCode,
    OpPrefixBegin,
    OpPrefixEnd,
    OpSmallInteger,
    OpPubKeys,
    OpPubKeyHash,
    OpPubkey,
    OpInvalidOpcode,
}

/// The single byte an opcode stands for.
pub open spec fn opcode_value(c: OpCodeType) -> u8 {
    match c {
        OpCodeType::Op0 => 0x00,
        OpCodeType::OpPushData1 => 0x4c,
        OpCodeType::OpPushData2 => 0x4d,
        OpCodeType::OpPushData4 => 0x4e,
        OpCodeType::Op1Negate => 0x4f,
        OpCodeType::OpReserved => 0x50,
        OpCodeType::Op1 => 0x51,
        OpCodeType::Op2 => 0x52,
        OpCodeType::Op3 => 0x53,
        OpCodeType::Op4 => 0x54,
        OpCodeType::Op5 => 0x55,
        OpCodeType::Op6 => 0x56,
        OpCodeType::Op7 => 0x57,
        OpCodeType::Op8 => 0x58,
        OpCodeType::Op9 => 0x59,
        OpCodeType::Op10 => 0x5a,
        OpCodeType::Op11 => 0x5b,
        OpCodeType::Op12 => 0x5c,
        OpCodeType::Op13 => 0x5d,
        OpCodeType::Op14 => 0x5e,
        OpCodeType::Op15 => 0x5f,
        OpCodeType::Op16 => 0x60,
        OpCodeType::OpNop => 0x61,
        OpCodeType::OpVer => 0x62,
        OpCodeType::OpIf => 0x63,
        OpCodeType::OpNotIf => 0x64,
        OpCodeType::OpVerIf => 0x65,
        OpCodeType::OpVerNotIf => 0x66,
        OpCodeType::OpElse => 0x67,
        OpCodeType::OpEndIf => 0x68,
        OpCodeType::OpVerify => 0x69,
        OpCodeType::OpReturn => 0x6a,
        OpCodeType::OpToAltStack => 0x6b,
        OpCodeType::OpFromAltStack => 0x6c,
        OpCodeType::Op2Drop => 0x6d,
        OpCodeType::Op2Dup => 0x6e,
        OpCodeType::Op3Dup => 0x6f,
        OpCodeType::Op2Over => 0x70,
        OpCodeType::Op2Rot => 0x71,
        OpCodeType::Op2Swap => 0x72,
        OpCodeType::OpIfDup => 0x73,
        OpCodeType::OpDepth => 0x74,
        OpCodeType::OpDrop => 0x75,
        OpCodeType::OpDup => 0x76,
        OpCodeType::OpNip => 0x77,
        OpCodeType::OpOver => 0x78,
        OpCodeType::OpPick => 0x79,
        OpCodeType::OpRoll => 0x7a,
        OpCodeType::OpRot => 0x7b,
        OpCodeType::OpSwap => 0x7c,
        OpCodeType::OpTuck => 0x7d,
        OpCodeType::OpCat => 0x7e,
        OpCodeType::OpSplit => 0x7f,
        OpCodeType::OpNum2Bin => 0x80,
        OpCodeType::OpBin2Num => 0x81,
        OpCodeType::OpSize => 0x82,
        OpCodeType::OpInvert => 0x83,
        OpCodeType::OpAnd => 0x84,
        OpCodeType::OpOr => 0x85,
        OpCodeType::OpXor => 0x86,
        OpCodeType::OpEqual => 0x87,
        OpCodeType::OpEqualVerify => 0x88,
        OpCodeType::OpReserved1 => 0x89,
        OpCodeType::OpReserved2 => 0x8a,
        OpCodeType::Op1Add => 0x8b,
        OpCodeType::Op1Sub => 0x8c,
        OpCodeType::Op2Mul => 0x8d,
        OpCodeType::Op2Div => 0x8e,
        OpCodeType::OpNegate => 0x8f,
        OpCodeType::OpAbs => 0x90,
        OpCodeType::OpNot => 0x91,
        OpCodeType::Op0NotEqual => 0x92,
        OpCodeType::OpAdd => 0x93,
        OpCodeType::OpSub => 0x94,
        OpCodeType::OpMul => 0x95,
        OpCodeType::OpDiv => 0x96,
        OpCodeType::OpMod => 0x97,
        OpCodeType::OpLShift => 0x98,
        OpCodeType::OpRShift => 0x99,
        OpCodeType::OpBoolAnd => 0x9a,
        OpCodeType::OpBoolOr => 0x9b,
        OpCodeType::OpNumEqual => 0x9c,
        OpCodeType::OpNumEqualVerify => 0x9d,
        OpCodeType::OpNumNotEqual => 0x9e,
        OpCodeType::OpLessThan => 0x9f,
        OpCodeType::OpGreaterThan => 0xa0,
        OpCodeType::OpLessThanOrEqual => 0xa1,
        OpCodeType::OpGreaterThanOrEqual => 0xa2,
        OpCodeType::OpMin => 0xa3,
        OpCodeType::OpMax => 0xa4,
        OpCodeType::OpWithin => 0xa5,
        OpCodeType::OpRipemd160 => 0xa6,
        OpCodeType::OpSha1 => 0xa7,
        OpCodeType::OpSha256 => 0xa8,
        OpCodeType::OpHash160 => 0xa9,
        OpCodeType::OpHash256 => 0xaa,
        OpCodeType::OpCodeSeparator => 0xab,
        OpCodeType::OpCheckSig => 0xac,
        OpCodeType::OpCheckSigVerify => 0xad,
        OpCodeType::OpCheckMultiSig => 0xae,
        OpCodeType::OpCheckMultiSigVerify => 0xaf,
        OpCodeType::OpNop1 => 0xb0,
        OpCodeType::OpCheckLockTimeVerify => 0xb1,
        OpCodeType::OpCheckSequenceVerify => 0xb2,
        OpCodeType::OpNop4 => 0xb3,
        OpCodeType::OpNop5 => 0xb4,
        OpCodeType::OpNop6 => 0xb5,
        OpCodeType::OpNop7 => 0xb6,
        OpCodeType::OpNop8 => 0xb7,
        OpCodeType::OpNop9 => 0xb8,
        OpCodeType::OpNop10 => 0xb9,
        OpCodeType::OpCheckDataSig => 0xba,
        OpCodeType::OpCheckDataSigVerify => 0xbb,
        OpCodeType::FirstUndefinedOpCode => 0xbc,
        OpCodeType::OpPrefixBegin => 0xf0,
        OpCodeType::OpPrefixEnd => 0xf7,
        OpCodeType::OpSmallInteger => 0xfa,
        OpCodeType::OpPubKeys => 0xfb,
        OpCodeType::OpPubKeyHash => 0xfd,
        OpCodeType::OpPubkey => 0xfe,
        OpCodeType::OpInvalidOpcode => 0xff,
    }
}

/// The opcode a byte stands for; bytes outside the enumeration fall back
/// to the invalid-opcode sentinel.
pub open spec fn opcode_of_byte(b: u8) -> OpCodeType {
    if b == 0x00 {
        OpCodeType::Op0
    } else if b == 0x4c {
        OpCodeType::OpPushData1
    } else if b == 0x4d {
        OpCodeType::OpPushData2
    } else if b == 0x4e {
        OpCodeType::OpPushData4
    } else if b == 0x4f {
        OpCodeType::Op1Negate
    } else if b == 0x50 {
        OpCodeType::OpReserved
    } else if b == 0x51 {
        OpCodeType::Op1
    } else if b == 0x52 {
        OpCodeType::Op2
    } else if b == 0x53 {
        OpCodeType::Op3
    } else if b == 0x54 {
        OpCodeType::Op4
    } else if b == 0x55 {
        OpCodeType::Op5
    } else if b == 0x56 {
        OpCodeType::Op6
    } else if b == 0x57 {
        OpCodeType::Op7
    } else if b == 0x58 {
        OpCodeType::Op8
    } else if b == 0x59 {
        OpCodeType::Op9
    } else if b == 0x5a {
        OpCodeType::Op10
    } else if b == 0x5b {
        OpCodeType::Op11
    } else if b == 0x5c {
        OpCodeType::Op12
    } else if b == 0x5d {
        OpCodeType::Op13
    } else if b == 0x5e {
        OpCodeType::Op14
    } else if b == 0x5f {
        OpCodeType::Op15
    } else if b == 0x60 {
        OpCodeType::Op16
    } else if b == 0x61 {
        OpCodeType::OpNop
    } else if b == 0x62 {
        OpCodeType::OpVer
    } else if b == 0x63 {
        OpCodeType::OpIf
    } else if b == 0x64 {
        OpCodeType::OpNotIf
    } else if b == 0x65 {
        OpCodeType::OpVerIf
    } else if b == 0x66 {
        OpCodeType::OpVerNotIf
    } else if b == 0x67 {
        OpCodeType::OpElse
    } else if b == 0x68 {
        OpCodeType::OpEndIf
    } else if b == 0x69 {
        OpCodeType::OpVerify
    } else if b == 0x6a {
        OpCodeType::OpReturn
    } else if b == 0x6b {
        OpCodeType::OpToAltStack
    } else if b == 0x6c {
        OpCodeType::OpFromAltStack
    } else if b == 0x6d {
        OpCodeType::Op2Drop
    } else if b == 0x6e {
        OpCodeType::Op2Dup
    } else if b == 0x6f {
        OpCodeType::Op3Dup
    } else if b == 0x70 {
        OpCodeType::Op2Over
    } else if b == 0x71 {
        OpCodeType::Op2Rot
    } else if b == 0x72 {
        OpCodeType::Op2Swap
    } else if b == 0x73 {
        OpCodeType::OpIfDup
    } else if b == 0x74 {
        OpCodeType::OpDepth
    } else if b == 0x75 {
        OpCodeType::OpDrop
    } else if b == 0x76 {
        OpCodeType::OpDup
    } else if b == 0x77 {
        OpCodeType::OpNip
    } else if b == 0x78 {
        OpCodeType::OpOver
    } else if b == 0x79 {
        OpCodeType::OpPick
    } else if b == 0x7a {
        OpCodeType::OpRoll
    } else if b == 0x7b {
        OpCodeType::OpRot
    } else if b == 0x7c {
        OpCodeType::OpSwap
    } else if b == 0x7d {
        OpCodeType::OpTuck
    } else if b == 0x7e {
        OpCodeType::OpCat
    } else if b == 0x7f {
        OpCodeType::OpSplit
    } else if b == 0x80 {
        OpCodeType::OpNum2Bin
    } else if b == 0x81 {
        OpCodeType::OpBin2Num
    } else if b == 0x82 {
        OpCodeType::OpSize
    } else if b == 0x83 {
        OpCodeType::OpInvert
    } else if b == 0x84 {
        OpCodeType::OpAnd
    } else if b == 0x85 {
        OpCodeType::OpOr
    } else if b == 0x86 {
        OpCodeType::OpXor
    } else if b == 0x87 {
        OpCodeType::OpEqual
    } else if b == 0x88 {
        OpCodeType::OpEqualVerify
    } else if b == 0x89 {
        OpCodeType::OpReserved1
    } else if b == 0x8a {
        OpCodeType::OpReserved2
    } else if b == 0x8b {
        OpCodeType::Op1Add
    } else if b == 0x8c {
        OpCodeType::Op1Sub
    } else if b == 0x8d {
        OpCodeType::Op2Mul
    } else if b == 0x8e {
        OpCodeType::Op2Div
    } else if b == 0x8f {
        OpCodeType::OpNegate
    } else if b == 0x90 {
        OpCodeType::OpAbs
    } else if b == 0x91 {
        OpCodeType::OpNot
    } else if b == 0x92 {
        OpCodeType::Op0NotEqual
    } else if b == 0x93 {
        OpCodeType::OpAdd
    } else if b == 0x94 {
        OpCodeType::OpSub
    } else if b == 0x95 {
        OpCodeType::OpMul
    } else if b == 0x96 {
        OpCodeType::OpDiv
    } else if b == 0x97 {
        OpCodeType::OpMod
    } else if b == 0x98 {
        OpCodeType::OpLShift
    } else if b == 0x99 {
        OpCodeType::OpRShift
    } else if b == 0x9a {
        OpCodeType::OpBoolAnd
    } else if b == 0x9b {
        OpCodeType::OpBoolOr
    } else if b == 0x9c {
        OpCodeType::OpNumEqual
    } else if b == 0x9d {
        OpCodeType::OpNumEqualVerify
    } else if b == 0x9e {
        OpCodeType::OpNumNotEqual
    } else if b == 0x9f {
        OpCodeType::OpLessThan
    } else if b == 0xa0 {
        OpCodeType::OpGreaterThan
    } else if b == 0xa1 {
        OpCodeType::OpLessThanOrEqual
    } else if b == 0xa2 {
        OpCodeType::OpGreaterThanOrEqual
    } else if b == 0xa3 {
        OpCodeType::OpMin
    } else if b == 0xa4 {
        OpCodeType::OpMax
    } else if b == 0xa5 {
        OpCodeType::OpWithin
    } else if b == 0xa6 {
        OpCodeType::OpRipemd160
    } else if b == 0xa7 {
        OpCodeType::OpSha1
    } else if b == 0xa8 {
        OpCodeType::OpSha256
    } else if b == 0xa9 {
        OpCodeType::OpHash160
    } else if b == 0xaa {
        OpCodeType::OpHash256
    } else if b == 0xab {
        OpCodeType::OpCodeSeparator
    } else if b == 0xac {
        OpCodeType::OpCheckSig
    } else if b == 0xad {
        OpCodeType::OpCheckSigVerify
    } else if b == 0xae {
        OpCodeType::OpCheckMultiSig
    } else if b == 0xaf {
        OpCodeType::OpCheckMultiSigVerify
    } else if b == 0xb0 {
        OpCodeType::OpNop1
    } else if b == 0xb1 {
        OpCodeType::OpCheckLockTimeVerify
    } else if b == 0xb2 {
        OpCodeType::OpCheckSequenceVerify
    } else if b == 0xb3 {
        OpCodeType::OpNop4
    } else if b == 0xb4 {
        OpCodeType::OpNop5
    } else if b == 0xb5 {
        OpCodeType::OpNop6
    } else if b == 0xb6 {
        OpCodeType::OpNop7
    } else if b == 0xb7 {
        OpCodeType::OpNop8
    } else if b == 0xb8 {
        OpCodeType::OpNop9
    } else if b == 0xb9 {
        OpCodeType::OpNop10
    } else if b == 0xba {
        OpCodeType::OpCheckDataSig
    } else if b == 0xbb {
        OpCodeType::OpCheckDataSigVerify
    } else if b == 0xbc {
        OpCodeType::FirstUndefinedOpCode
    } else if b == 0xf0 {
        OpCodeType::OpPrefixBegin
    } else if b == 0xf7 {
        OpCodeType::OpPrefixEnd
    } else if b == 0xfa {
        OpCodeType::OpSmallInteger
    } else if b == 0xfb {
        OpCodeType::OpPubKeys
    } else if b == 0xfd {
        OpCodeType::OpPubKeyHash
    } else if b == 0xfe {
        OpCodeType::OpPubkey
    } else {
        OpCodeType::OpInvalidOpcode
    }
}

pub fn opcode_byte(c: OpCodeType) -> (r: u8)
    ensures
        r == opcode_value(c),
{
    match c {
        OpCodeType::Op0 => 0x00,
        OpCodeType::OpPushData1 => 0x4c,
        OpCodeType::OpPushData2 => 0x4d,
        OpCodeType::OpPushData4 => 0x4e,
        OpCodeType::Op1Negate => 0x4f,
        OpCodeType::OpReserved => 0x50,
        OpCodeType::Op1 => 0x51,
        OpCodeType::Op2 => 0x52,
        OpCodeType::Op3 => 0x53,
        OpCodeType::Op4 => 0x54,
        OpCodeType::Op5 => 0x55,
        OpCodeType::Op6 => 0x56,
        OpCodeType::Op7 => 0x57,
        OpCodeType::Op8 => 0x58,
        OpCodeType::Op9 => 0x59,
        OpCodeType::Op10 => 0x5a,
        OpCodeType::Op11 => 0x5b,
        OpCodeType::Op12 => 0x5c,
        OpCodeType::Op13 => 0x5d,
        OpCodeType::Op14 => 0x5e,
        OpCodeType::Op15 => 0x5f,
        OpCodeType::Op16 => 0x60,
        OpCodeType::OpNop => 0x61,
        OpCodeType::OpVer => 0x62,
        OpCodeType::OpIf => 0x63,
        OpCodeType::OpNotIf => 0x64,
        OpCodeType::OpVerIf => 0x65,
        OpCodeType::OpVerNotIf => 0x66,
        OpCodeType::OpElse => 0x67,
        OpCodeType::OpEndIf => 0x68,
        OpCodeType::OpVerify => 0x69,
        OpCodeType::OpReturn => 0x6a,
        OpCodeType::OpToAltStack => 0x6b,
        OpCodeType::OpFromAltStack => 0x6c,
        OpCodeType::Op2Drop => 0x6d,
        OpCodeType::Op2Dup => 0x6e,
        OpCodeType::Op3Dup => 0x6f,
        OpCodeType::Op2Over => 0x70,
        OpCodeType::Op2Rot => 0x71,
        OpCodeType::Op2Swap => 0x72,
        OpCodeType::OpIfDup => 0x73,
        OpCodeType::OpDepth => 0x74,
        OpCodeType::OpDrop => 0x75,
        OpCodeType::OpDup => 0x76,
        OpCodeType::OpNip => 0x77,
        OpCodeType::OpOver => 0x78,
        OpCodeType::OpPick => 0x79,
        OpCodeType::OpRoll => 0x7a,
        OpCodeType::OpRot => 0x7b,
        OpCodeType::OpSwap => 0x7c,
        OpCodeType::OpTuck => 0x7d,
        OpCodeType::OpCat => 0x7e,
        OpCodeType::OpSplit => 0x7f,
        OpCodeType::OpNum2Bin => 0x80,
        OpCodeType::OpBin2Num => 0x81,
        OpCodeType::OpSize => 0x82,
        OpCodeType::OpInvert => 0x83,
        OpCodeType::OpAnd => 0x84,
        OpCodeType::OpOr => 0x85,
        OpCodeType::OpXor => 0x86,
        OpCodeType::OpEqual => 0x87,
        OpCodeType::OpEqualVerify => 0x88,
        OpCodeType::OpReserved1 => 0x89,
        OpCodeType::OpReserved2 => 0x8a,
        OpCodeType::Op1Add => 0x8b,
        OpCodeType::Op1Sub => 0x8c,
        OpCodeType::Op2Mul => 0x8d,
        OpCodeType::Op2Div => 0x8e,
        OpCodeType::OpNegate => 0x8f,
        OpCodeType::OpAbs => 0x90,
        OpCodeType::OpNot => 0x91,
        OpCodeType::Op0NotEqual => 0x92,
        OpCodeType::OpAdd => 0x93,
        OpCodeType::OpSub => 0x94,
        OpCodeType::OpMul => 0x95,
        OpCodeType::OpDiv => 0x96,
        OpCodeType::OpMod => 0x97,
        OpCodeType::OpLShift => 0x98,
        OpCodeType::OpRShift => 0x99,
        OpCodeType::OpBoolAnd => 0x9a,
        OpCodeType::OpBoolOr => 0x9b,
        OpCodeType::OpNumEqual => 0x9c,
        OpCodeType::OpNumEqualVerify => 0x9d,
        OpCodeType::OpNumNotEqual => 0x9e,
        OpCodeType::OpLessThan => 0x9f,
        OpCodeType::OpGreaterThan => 0xa0,
        OpCodeType::OpLessThanOrEqual => 0xa1,
        OpCodeType::OpGreaterThanOrEqual => 0xa2,
        OpCodeType::OpMin => 0xa3,
        OpCodeType::OpMax => 0xa4,
        OpCodeType::OpWithin => 0xa5,
        OpCodeType::OpRipemd160 => 0xa6,
        OpCodeType::OpSha1 => 0xa7,
        OpCodeType::OpSha256 => 0xa8,
        OpCodeType::OpHash160 => 0xa9,
        OpCodeType::OpHash256 => 0xaa,
        OpCodeType::OpCodeSeparator => 0xab,
        OpCodeType::OpCheckSig => 0xac,
        OpCodeType::OpCheckSigVerify => 0xad,
        OpCodeType::OpCheckMultiSig => 0xae,
        OpCodeType::OpCheckMultiSigVerify => 0xaf,
        OpCodeType::OpNop1 => 0xb0,
        OpCodeType::OpCheckLockTimeVerify => 0xb1,
        OpCodeType::OpCheckSequenceVerify => 0xb2,
        OpCodeType::OpNop4 => 0xb3,
        OpCodeType::OpNop5 => 0xb4,
        OpCodeType::OpNop6 => 0xb5,
        OpCodeType::OpNop7 => 0xb6,
        OpCodeType::OpNop8 => 0xb7,
        OpCodeType::OpNop9 => 0xb8,
        OpCodeType::OpNop10 => 0xb9,
        OpCodeType::OpCheckDataSig => 0xba,
        OpCodeType::OpCheckDataSigVerify => 0xbb,
        OpCodeType::FirstUndefinedOpCode => 0xbc,
        OpCodeType::OpPrefixBegin => 0xf0,
        OpCodeType::OpPrefixEnd => 0xf7,
        OpCodeType::OpSmallInteger => 0xfa,
        OpCodeType::OpPubKeys => 0xfb,
        OpCodeType::OpPubKeyHash => 0xfd,
        OpCodeType::OpPubkey => 0xfe,
        OpCodeType::OpInvalidOpcode => 0xff,
    }
}

pub fn opcode_from_byte(b: u8) -> (r: OpCodeType)
    ensures
        r == opcode_of_byte(b),
{
    match b {
        0x00 => OpCodeType::Op0,
        0x4c => OpCodeType::OpPushData1,
        0x4d => OpCodeType::OpPushData2,
        0x4e => OpCodeType::OpPushData4,
        0x4f => OpCodeType::Op1Negate,
        0x50 => OpCodeType::OpReserved,
        0x51 => OpCodeType::Op1,
        0x52 => OpCodeType::Op2,
        0x53 => OpCodeType::Op3,
        0x54 => OpCodeType::Op4,
        0x55 => OpCodeType::Op5,
        0x56 => OpCodeType::Op6,
        0x57 => OpCodeType::Op7,
        0x58 => OpCodeType::Op8,
        0x59 => OpCodeType::Op9,
        0x5a => OpCodeType::Op10,
        0x5b => OpCodeType::Op11,
        0x5c => OpCodeType::Op12,
        0x5d => OpCodeType::Op13,
        0x5e => OpCodeType::Op14,
        0x5f => OpCodeType::Op15,
        0x60 => OpCodeType::Op16,
        0x61 => OpCodeType::OpNop,
        0x62 => OpCodeType::OpVer,
        0x63 => OpCodeType::OpIf,
        0x64 => OpCodeType::OpNotIf,
        0x65 => OpCodeType::OpVerIf,
        0x66 => OpCodeType::OpVerNotIf,
        0x67 => OpCodeType::OpElse,
        0x68 => OpCodeType::OpEndIf,
        0x69 => OpCodeType::OpVerify,
        0x6a => OpCodeType::OpReturn,
        0x6b => OpCodeType::OpToAltStack,
        0x6c => OpCodeType::OpFromAltStack,
        0x6d => OpCodeType::Op2Drop,
        0x6e => OpCodeType::Op2Dup,
        0x6f => OpCodeType::Op3Dup,
        0x70 => OpCodeType::Op2Over,
        0x71 => OpCodeType::Op2Rot,
        0x72 => OpCodeType::Op2Swap,
        0x73 => OpCodeType::OpIfDup,
        0x74 => OpCodeType::OpDepth,
        0x75 => OpCodeType::OpDrop,
        0x76 => OpCodeType::OpDup,
        0x77 => OpCodeType::OpNip,
        0x78 => OpCodeType::OpOver,
        0x79 => OpCodeType::OpPick,
        0x7a => OpCodeType::OpRoll,
        0x7b => OpCodeType::OpRot,
        0x7c => OpCodeType::OpSwap,
        0x7d => OpCodeType::OpTuck,
        0x7e => OpCodeType::OpCat,
        0x7f => OpCodeType::OpSplit,
        0x80 => OpCodeType::OpNum2Bin,
        0x81 => OpCodeType::OpBin2Num,
        0x82 => OpCodeType::OpSize,
        0x83 => OpCodeType::OpInvert,
        0x84 => OpCodeType::OpAnd,
        0x85 => OpCodeType::OpOr,
        0x86 => OpCodeType::OpXor,
        0x87 => OpCodeType::OpEqual,
        0x88 => OpCodeType::OpEqualVerify,
        0x89 => OpCodeType::OpReserved1,
        0x8a => OpCodeType::OpReserved2,
        0x8b => OpCodeType::Op1Add,
        0x8c => OpCodeType::Op1Sub,
        0x8d => OpCodeType::Op2Mul,
        0x8e => OpCodeType::Op2Div,
        0x8f => OpCodeType::OpNegate,
        0x90 => OpCodeType::OpAbs,
        0x91 => OpCodeType::OpNot,
        0x92 => OpCodeType::Op0NotEqual,
        0x93 => OpCodeType::OpAdd,
        0x94 => OpCodeType::OpSub,
        0x95 => OpCodeType::OpMul,
        0x96 => OpCodeType::OpDiv,
        0x97 => OpCodeType::OpMod,
        0x98 => OpCodeType::OpLShift,
        0x99 => OpCodeType::OpRShift,
        0x9a => OpCodeType::OpBoolAnd,
        0x9b => OpCodeType::OpBoolOr,
        0x9c => OpCodeType::OpNumEqual,
        0x9d => OpCodeType::OpNumEqualVerify,
        0x9e => OpCodeType::OpNumNotEqual,
        0x9f => OpCodeType::OpLessThan,
        0xa0 => OpCodeType::OpGreaterThan,
        0xa1 => OpCodeType::OpLessThanOrEqual,
        0xa2 => OpCodeType::OpGreaterThanOrEqual,
        0xa3 => OpCodeType::OpMin,
        0xa4 => OpCodeType::OpMax,
        0xa5 => OpCodeType::OpWithin,
        0xa6 => OpCodeType::OpRipemd160,
        0xa7 => OpCodeType::OpSha1,
        0xa8 => OpCodeType::OpSha256,
        0xa9 => OpCodeType::OpHash160,
        0xaa => OpCodeType::OpHash256,
        0xab => OpCodeType::OpCodeSeparator,
        0xac => OpCodeType::OpCheckSig,
        0xad => OpCodeType::OpCheckSigVerify,
        0xae => OpCodeType::OpCheckMultiSig,
        0xaf => OpCodeType::OpCheckMultiSigVerify,
        0xb0 => OpCodeType::OpNop1,
        0xb1 => OpCodeType::OpCheckLockTimeVerify,
        0xb2 => OpCodeType::OpCheckSequenceVerify,
        0xb3 => OpCodeType::OpNop4,
        0xb4 => OpCodeType::OpNop5,
        0xb5 => OpCodeType::OpNop6,
        0xb6 => OpCodeType::OpNop7,
        0xb7 => OpCodeType::OpNop8,
        0xb8 => OpCodeType::OpNop9,
        0xb9 => OpCodeType::OpNop10,
        0xba => OpCodeType::OpCheckDataSig,
        0xbb => OpCodeType::OpCheckDataSigVerify,
        0xbc => OpCodeType::FirstUndefinedOpCode,
        0xf0 => OpCodeType::OpPrefixBegin,
        0xf7 => OpCodeType::OpPrefixEnd,
        0xfa => OpCodeType::OpSmallInteger,
        0xfb => OpCodeType::OpPubKeys,
        0xfd => OpCodeType::OpPubKeyHash,
        0xfe => OpCodeType::OpPubkey,
        _ => OpCodeType::OpInvalidOpcode,
    }
}

#[derive(Clone, Debug, Eq, PartialEq)]
pub enum Op {
    Push(Vec<u8>),
    Code(OpCodeType),
}

/// The mathematical shape of an operation: pushed bytes, or an opcode
/// byte.
#[verifier::ext_equal]
pub enum OpV {
    Push(Seq<u8>),
    Code(u8),
}

pub open spec fn op_view(op: Op) -> OpV {
    match op {
        Op::Push(v) => OpV::Push(v@),
        Op::Code(c) => OpV::Code(opcode_value(c)),
    }
}

pub open spec fn ops_view(ops: Seq<Op>) -> Seq<OpV> {
    ops.map_values(|o: Op| op_view(o))
}

/// A push is serializable when its payload length fits the widest length
/// prefix.
pub open spec fn op_wf(op: OpV) -> bool {
    match op {
        OpV::Push(v) => v.len() <= 0xffff_ffff,
        OpV::Code(_) => true,
    }
}

pub open spec fn ops_wf(ops: Seq<OpV>) -> bool {
    forall|i: int| 0 <= i < ops.len() ==> op_wf(#[trigger] ops[i])
}

/// The serialized form of one operation. Under the minimal policy a
/// one-byte push of a value from one to sixteen becomes the matching
/// small-integer opcode; the empty push is the single zero byte.
pub open spec fn op_bytes(op: OpV, minimal: bool) -> Seq<u8> {
    match op {
        OpV::Code(c) => seq![c],
        OpV::Push(v) => if minimal && v.len() == 1 && 1 <= v[0] <= 16 {
            seq![(0x50 + v[0]) as u8]
        } else if v.len() <= 0x4b {
            seq![v.len() as u8] + v
        } else if v.len() <= 0xff {
            seq![0x4cu8, v.len() as u8] + v
        } else if v.len() <= 0xffff {
            seq![0x4du8] + u16_le_bytes(v.len() as u16) + v
        } else {
            seq![0x4eu8] + u32_le_bytes(v.len() as u32) + v
        },
    }
}

/// The serialized form of a whole operation sequence.
pub open spec fn script_bytes(ops: Seq<OpV>, minimal: bool) -> Seq<u8>
    decreases ops.len(),
{
    if ops.len() == 0 {
        Seq::empty()
    } else {
        op_bytes(ops.first(), minimal) + script_bytes(ops.drop_first(), minimal)
    }
}

/// Under the minimal policy, a one-byte push of `k` in one to sixteen
/// encodes to the single byte `0x50 + k`; the empty push encodes to the
/// single zero byte; any other single byte keeps the length-prefixed
/// form.
pub proof fn lemma_minimal_push_encoding(k: u8)
    ensures
        1 <= k <= 16 ==> op_bytes(OpV::Push(seq![k]), true) == seq![(0x50 + k) as u8],
        op_bytes(OpV::Push(Seq::<u8>::empty()), true) == seq![0u8],
        (k == 0 || k > 16) ==> op_bytes(OpV::Push(seq![k]), true) == seq![1u8, k],
{
    if 1 <= k <= 16 {
        assert(op_bytes(OpV::Push(seq![k]), true) =~= seq![(0x50 + k) as u8]);
    }
    assert(op_bytes(OpV::Push(Seq::<u8>::empty()), true) =~= seq![0u8]);
    if k == 0 || k > 16 {
        assert(op_bytes(OpV::Push(seq![k]), true) =~= seq![1u8, k]);
    }
}

proof fn lemma_script_bytes_push(ops: Seq<OpV>, op: OpV, minimal: bool)
    ensures
        script_bytes(ops.push(op), minimal) == script_bytes(ops, minimal) + op_bytes(op, minimal),
    decreases ops.len(),
{
    if ops.len() == 0 {
        assert(ops.push(op).drop_first() =~= ops);
        assert(script_bytes(ops, minimal) == Seq::<u8>::empty());
        assert(script_bytes(ops.push(op), minimal) =~= script_bytes(ops, minimal) + op_bytes(
            op,
            minimal,
        ));
    } else {
        assert(ops.push(op).drop_first() =~= ops.drop_first().push(op));
        lemma_script_bytes_push(ops.drop_first(), op, minimal);
        assert(script_bytes(ops.push(op), minimal) =~= script_bytes(ops, minimal) + op_bytes(
            op,
            minimal,
        ));
    }
}

impl Op {
    /// The leading byte of this operation's serialized form, before the
    /// minimal-push refinement.
    pub fn code(&self) -> (r: u8)
        requires
            op_wf(op_view(*self)),
        ensures
            r == match op_view(*self) {
                OpV::Code(c) => c,
                OpV::Push(v) => if v.len() <= 0x4b {
                    v.len() as u8
                } else if v.len() <= 0xff {
                    0x4cu8
                } else if v.len() <= 0xffff {
                    0x4du8
                } else {
                    0x4eu8
                },
            },
    {
        match self {
            Op::Push(vec) => {
                if vec.len() <= 0x4b {
                    vec.len() as u8
                } else if vec.len() <= 0xff {
                    0x4c
                } else if vec.len() <= 0xffff {
                    0x4d
                } else {
                    0x4e
                }
            },
            Op::Code(code) => opcode_byte(*code),
        }
    }

    /// Appends this operation's serialized form.
    pub fn write_to_stream(&self, write: &mut Vec<u8>, is_minimal_push: bool)
        requires
            op_wf(op_view(*self)),
        ensures
            final(write)@ == old(write)@ + op_bytes(op_view(*self), is_minimal_push),
    {
        match self {
            Op::Push(vec) => {
                if is_minimal_push && vec.len() == 1 && vec[0] >= 1 && vec[0] <= 16 {
                    write.push(0x50 + vec[0]);
                    assert(write@ =~= old(write)@ + op_bytes(op_view(*self), is_minimal_push));
                } else if vec.len() <= 0x4b {
                    write.push(vec.len() as u8);
                    write.extend_from_slice(vec.as_slice());
                    assert(write@ =~= old(write)@ + op_bytes(op_view(*self), is_minimal_push));
                } else if vec.len() <= 0xff {
                    write.push(0x4c);
                    write.push(vec.len() as u8);
                    write.extend_from_slice(vec.as_slice());
                    assert(write@ =~= old(write)@ + op_bytes(op_view(*self), is_minimal_push));
                } else if vec.len() <= 0xffff {
                    write.push(0x4d);
                    write_u16_le(write, vec.len() as u16);
                    write.extend_from_slice(vec.as_slice());
                    assert(write@ =~= old(write)@ + op_bytes(op_view(*self), is_minimal_push));
                } else {
                    write.push(0x4e);
                    write_u32_le(write, vec.len() as u32);
                    write.extend_from_slice(vec.as_slice());
                    assert(write@ =~= old(write)@ + op_bytes(op_view(*self), is_minimal_push));
                }
            },
            Op::Code(code) => {
                let b = opcode_byte(*code);
                write.push(b);
                assert(write@ =~= old(write)@ + op_bytes(op_view(*self), is_minimal_push));
            },
        }
    }
}

#[derive(Clone, Debug)]
pub struct Script {
    pub ops: Vec<Op>,
    pub is_minimal_push: bool,
}

impl Script {
    /// The operations, as mathematical values.
    pub open spec fn ops_v(&self) -> Seq<OpV> {
        ops_view(self.ops@)
    }

    /// The script's serialized bytes.
    pub open spec fn bytes(&self) -> Seq<u8> {
        script_bytes(self.ops_v(), self.is_minimal_push)
    }

    /// Every push in the script fits its widest length prefix.
    pub open spec fn wf(&self) -> bool {
        ops_wf(self.ops_v())
    }

    pub fn empty() -> (r: Script)
        ensures
            r.ops_v() == Seq::<OpV>::empty(),
            r.is_minimal_push,
            r.wf(),
    {
        let r = Script { ops: Vec::new(), is_minimal_push: true };
        proof {
            assert(r.ops_v() =~= Seq::<OpV>::empty());
        }
        r
    }

    pub fn new(ops: Vec<Op>) -> (r: Script)
        ensures
            r.ops@ == ops@,
            r.ops_v() == ops_view(ops@),
            r.is_minimal_push,
    {
        Script { ops, is_minimal_push: true }
    }

    pub fn new_non_minimal_push(ops: Vec<Op>) -> (r: Script)
        ensures
            r.ops@ == ops@,
            r.ops_v() == ops_view(ops@),
            !r.is_minimal_push,
    {
        Script { ops, is_minimal_push: false }
    }

    pub fn add_op(&mut self, op: Op)
        ensures
            final(self).ops@ == old(self).ops@.push(op),
            final(self).ops_v() == old(self).ops_v().push(op_view(op)),
            final(self).is_minimal_push == old(self).is_minimal_push,
    {
        self.ops.push(op);
        proof {
            assert(self.ops_v() =~= old(self).ops_v().push(op_view(op)));
        }
    }

    pub fn ops(&self) -> (r: &[Op])
        ensures
            r@ == self.ops@,
    {
        self.ops.as_slice()
    }

    /// The script's serialized bytes.
    pub fn to_vec(&self) -> (r: Vec<u8>)
        requires
            self.wf(),
        ensures
            r@ == self.bytes(),
    {
        let mut out: Vec<u8> = Vec::new();
        let mut i: usize = 0;
        proof {
            assert(ops_view(self.ops@.take(0)) =~= Seq::<OpV>::empty());
        }
        while i < self.ops.len()
            invariant
                i <= self.ops@.len(),
                ops_wf(ops_view(self.ops@)),
                out@ == script_bytes(ops_view(self.ops@.take(i as int)), self.is_minimal_push),
            decreases self.ops@.len() - i,
        {
            assert(op_view(self.ops@[i as int]) == ops_view(self.ops@)[i as int]);
            self.ops[i].write_to_stream(&mut out, self.is_minimal_push);
            i += 1;
            proof {
                lemma_script_bytes_push(
                    ops_view(self.ops@.take(i - 1)),
                    op_view(self.ops@[i - 1]),
                    self.is_minimal_push,
                );
                assert(ops_view(self.ops@.take(i as int)) =~= ops_view(self.ops@.take(i - 1)).push(
                    op_view(self.ops@[i - 1]),
                ));
            }
        }
        proof {
            assert(self.ops@.take(self.ops@.len() as int) =~= self.ops@);
        }
        out
    }
}

/// The parsed operations of a serialized script: length-prefixed pushes
/// for the four push forms, a plain opcode for every other byte, `None`
/// when a push length overruns the input.
pub open spec fn parse_ops(data: Seq<u8>) -> Option<Seq<OpV>>
    decreases data.len(),
{
    if data.len() == 0 {
        Some(Seq::empty())
    } else {
        let b = data[0];
        if 1 <= b <= 0x4b {
            if 1 + b <= data.len() {
                match parse_ops(data.skip(1 + b as int)) {
                    Some(t) => Some(seq![OpV::Push(data.subrange(1, 1 + b as int))] + t),
                    None => None,
                }
            } else {
                None
            }
        } else if b == 0x4c {
            if data.len() >= 2 && 2 + data[1] <= data.len() {
                match parse_ops(data.skip(2 + data[1] as int)) {
                    Some(t) => Some(seq![OpV::Push(data.subrange(2, 2 + data[1] as int))] + t),
                    None => None,
                }
            } else {
                None
            }
        } else if b == 0x4d {
            if data.len() >= 3 && 3 + u16_of_le(data.subrange(1, 3)) <= data.len() {
                match parse_ops(data.skip(3 + u16_of_le(data.subrange(1, 3)) as int)) {
                    Some(t) => Some(
                        seq![
                            OpV::Push(
                                data.subrange(3, 3 + u16_of_le(data.subrange(1, 3)) as int),
                            ),
                        ] + t,
                    ),
                    None => None,
                }
            } else {
                None
            }
        } else if b == 0x4e {
            if data.len() >= 5 && 5 + u32_of_le(data.subrange(1, 5)) <= data.len() {
                match parse_ops(data.skip(5 + u32_of_le(data.subrange(1, 5)) as int)) {
                    Some(t) => Some(
                        seq![
                            OpV::Push(
                                data.subrange(5, 5 + u32_of_le(data.subrange(1, 5)) as int),
                            ),
                        ] + t,
                    ),
                    None => None,
                }
            } else {
                None
            }
        } else {
            match parse_ops(data.skip(1)) {
                Some(t) => Some(seq![OpV::Code(opcode_value(opcode_of_byte(b)))] + t),
                None => None,
            }
        }
    }
}

impl Script {
    /// Parses a serialized script; `None` when a push length overruns the
    /// input.
    #[verifier::loop_isolation(false)]
    #[verifier::rlimit(80)]
    #[verifier::spinoff_prover]
    pub fn from_serialized(data: &[u8]) -> (r: Option<Script>)
        ensures
            match r {
                Some(s) => {
                    &&& parse_ops(data@) == Some(s.ops_v())
                    &&& s.is_minimal_push
                },
                None => parse_ops(data@) is None,
            },
    {
        let n = data.len();
        let mut ops: Vec<Op> = Vec::new();
        let mut idx: usize = 0;
        proof {
            assert(data@.skip(0) =~= data@);
            assert(ops_view(ops@) =~= Seq::<OpV>::empty());
            if parse_ops(data@) is Some {
                assert(ops_view(ops@) + parse_ops(data@)->0 =~= parse_ops(data@)->0);
            }
        }
        while idx < n
            invariant
                n == data@.len(),
                idx <= n,
                parse_ops(data@) is Some <==> parse_ops(data@.skip(idx as int)) is Some,
                parse_ops(data@) is Some ==> parse_ops(data@)->0 == ops_view(ops@) + parse_ops(
                    data@.skip(idx as int),
                )->0,
            decreases n - idx,
        {
            let ghost rest = data@.skip(idx as int);
            let b = data[idx];
            assert(rest[0] == b);
            let ghost old_ops = ops@;
            if 1 <= b && b <= 0x4b {
                let count = b as usize;
                if n - idx < 1 + count {
                    return None;
                }
                let payload = read_bytes(data, idx + 1, count);
                proof {
                    assert(rest.subrange(1, 1 + b as int) =~= data@.subrange(
                        idx + 1,
                        idx + 1 + count,
                    ));
                    assert(rest.skip(1 + b as int) =~= data@.skip(idx + 1 + count));
                }
                ops.push(Op::Push(payload));
                idx += 1 + count;
            } else if b == 0x4c {
                if n - idx < 2 {
                    return None;
                }
                let count = data[idx + 1] as usize;
                if n - idx < 2 + count {
                    return None;
                }
                let payload = read_bytes(data, idx + 2, count);
                proof {
                    assert(rest[1] == data@[idx + 1]);
                    assert(rest.subrange(2, 2 + rest[1] as int) =~= data@.subrange(
                        idx + 2,
                        idx + 2 + count,
                    ));
                    assert(rest.skip(2 + rest[1] as int) =~= data@.skip(idx + 2 + count));
                }
                ops.push(Op::Push(payload));
                idx += 2 + count;
            } else if b == 0x4d {
                if n - idx < 3 {
                    return None;
                }
                let count = data[idx + 1] as usize + data[idx + 2] as usize * 0x100;
                proof {
                    assert(rest.subrange(1, 3) =~= seq![data@[idx + 1], data@[idx + 2]]);
                    assert(u16_of_le(rest.subrange(1, 3)) == count);
                }
                if n - idx < 3 + count {
                    return None;
                }
                let payload = read_bytes(data, idx + 3, count);
                proof {
                    assert(rest.subrange(3, 3 + count as int) =~= data@.subrange(
                        idx + 3,
                        idx + 3 + count,
                    ));
                    assert(rest.skip(3 + count as int) =~= data@.skip(idx + 3 + count));
                }
                ops.push(Op::Push(payload));
                idx += 3 + count;
            } else if b == 0x4e {
                if n - idx < 5 {
                    return None;
                }
                let count_u32 = data[idx + 1] as u64 + data[idx + 2] as u64 * 0x100 + data[idx + 3]
                    as u64 * 0x1_0000 + data[idx + 4] as u64 * 0x100_0000;
                proof {
                    assert(rest.subrange(1, 5) =~= seq![
                        data@[idx + 1],
                        data@[idx + 2],
                        data@[idx + 3],
                        data@[idx + 4],
                    ]);
                    assert(u32_of_le(rest.subrange(1, 5)) == count_u32);
                }
                if ((n - idx) as u64) < 5 + count_u32 {
                    return None;
                }
                let count = count_u32 as usize;
                let payload = read_bytes(data, idx + 5, count);
                proof {
                    assert(rest.subrange(5, 5 + count as int) =~= data@.subrange(
                        idx + 5,
                        idx + 5 + count,
                    ));
                    assert(rest.skip(5 + count as int) =~= data@.skip(idx + 5 + count));
                }
                ops.push(Op::Push(payload));
                idx += 5 + count;
            } else {
                proof {
                    assert(rest.skip(1) =~= data@.skip(idx + 1));
                }
                ops.push(Op::Code(opcode_from_byte(b)));
                idx += 1;
            }
            proof {
                if parse_ops(data@) is Some {
                    let t = parse_ops(data@.skip(idx as int))->0;
                    assert(ops_view(ops@) =~= ops_view(old_ops).push(op_view(ops@[ops@.len() - 1])));
                    assert(ops_view(old_ops) + (seq![op_view(ops@[ops@.len() - 1])] + t)
                        =~= ops_view(ops@) + t);
                }
            }
        }
        proof {
            assert(data@.skip(n as int) =~= Seq::<u8>::empty());
            if parse_ops(data@) is Some {
                assert(ops_view(ops@) + parse_ops(data@.skip(n as int))->0 =~= ops_view(ops@));
            }
        }
        Some(Script { ops, is_minimal_push: true })
    }
}

/// Copies one operation; the copy denotes the same mathematical value.
pub fn clone_op(op: &Op) -> (r: Op)
    ensures
        op_view(r) == op_view(*op),
{
    match op {
        Op::Push(v) => {
            let mut copy: Vec<u8> = Vec::new();
            copy.extend_from_slice(v.as_slice());
            proof {
                assert(copy@ =~= v@);
            }
            Op::Push(copy)
        },
        Op::Code(c) => Op::Code(*c),
    }
}

/// Copies a script; the copy has the same operations and policy.
pub fn clone_script(s: &Script) -> (r: Script)
    ensures
        r.ops_v() == s.ops_v(),
        r.is_minimal_push == s.is_minimal_push,
{
    let mut ops: Vec<Op> = Vec::new();
    let mut i: usize = 0;
    while i < s.ops.len()
        invariant
            i <= s.ops@.len(),
            ops@.len() == i,
            forall|j: int| 0 <= j < i ==> op_view(#[trigger] ops@[j]) == op_view(s.ops@[j]),
        decreases s.ops@.len() - i,
    {
        ops.push(clone_op(&s.ops[i]));
        i += 1;
    }
    let r = Script { ops, is_minimal_push: s.is_minimal_push };
    proof {
        assert(r.ops_v() =~= s.ops_v());
    }
    r
}

} // verus!
