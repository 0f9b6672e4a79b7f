use slpagora::serialize::{
    read_var_int, read_var_str, write_i32_le, write_u16_le, write_u32_be, write_u32_le,
    write_u64_be, write_u64_le, write_var_int, write_var_str,
};
use slpagora::bits::convert_bits;
use slpagora::hexcode::{hex_decode, hex_encode};
use slpagora::script::{Op, OpCodeType, Script};

#[test]
fn little_endian_writers_emit_expected_bytes() {
    let mut out = Vec::new();
    write_u16_le(&mut out, 0x1234);
    assert_eq!(out, vec![0x34, 0x12]);
    let mut out = Vec::new();
    write_u32_le(&mut out, 0x01020304);
    assert_eq!(out, vec![4, 3, 2, 1]);
    let mut out = Vec::new();
    write_u64_le(&mut out, 0x0102030405060708);
    assert_eq!(out, vec![8, 7, 6, 5, 4, 3, 2, 1]);
    let mut out = Vec::new();
    write_i32_le(&mut out, -1);
    assert_eq!(out, vec![0xff, 0xff, 0xff, 0xff]);
}

#[test]
fn big_endian_writers_emit_expected_bytes() {
    let mut out = Vec::new();
    write_u32_be(&mut out, 0x01020304);
    assert_eq!(out, vec![1, 2, 3, 4]);
    let mut out = Vec::new();
    write_u64_be(&mut out, 0x0102030405060708);
    assert_eq!(out, vec![1, 2, 3, 4, 5, 6, 7, 8]);
}

#[test]
fn var_int_round_trips_across_all_widths() {
    for &n in &[
        0u64,
        0xfc,
        0xfd,
        0xffff,
        0x1_0000,
        0xffff_ffff,
        0x1_0000_0000,
        u64::MAX,
    ] {
        let mut out = Vec::new();
        write_var_int(&mut out, n);
        let decoded = read_var_int(&out, 0).expect("an encoded integer decodes");
        assert_eq!(decoded, (n, out.len()));
    }
}

#[test]
fn var_int_encodings_have_expected_shape() {
    let mut out = Vec::new();
    write_var_int(&mut out, 0xfc);
    assert_eq!(out, vec![0xfc]);
    let mut out = Vec::new();
    write_var_int(&mut out, 0xfd);
    assert_eq!(out, vec![0xfd, 0xfd, 0x00]);
    let mut out = Vec::new();
    write_var_int(&mut out, 0x1_0000);
    assert_eq!(out, vec![0xfe, 0x00, 0x00, 0x01, 0x00]);
}

#[test]
fn var_str_round_trips() {
    let mut out = Vec::new();
    write_var_str(&mut out, b"hello");
    assert_eq!(out, vec![5, b'h', b'e', b'l', b'l', b'o']);
    let (s, end) = read_var_str(&out, 0).expect("an encoded string decodes");
    assert_eq!(s, b"hello");
    assert_eq!(end, out.len());
}

#[test]
fn hex_round_trips_and_accepts_uppercase() {
    let data = vec![0x00u8, 0x7f, 0x80, 0xff, 0x12];
    let s = hex_encode(&data);
    assert_eq!(s, "007f80ff12");
    assert_eq!(hex_decode(&s).unwrap(), data);
    assert_eq!(hex_decode("007F80FF12").unwrap(), data);
    assert!(hex_decode("abc").is_none());
    assert!(hex_decode("zz").is_none());
}

#[test]
fn bit_repacking_inverts_with_padding() {
    let x: Vec<u8> = vec![0xde, 0xad, 0xbe, 0xef, 0x01, 0x23, 0x99];
    let five = convert_bits(&x, 8, 5, true).expect("bytes regroup into five-bit digits");
    assert!(five.iter().all(|&v| v < 32));
    let back = convert_bits(&five, 5, 8, true).expect("digits regroup into bytes");
    assert!(back.len() >= x.len() && back.len() <= x.len() + 1);
    assert_eq!(&back[..x.len()], &x[..]);
    for &pad in &back[x.len()..] {
        assert_eq!(pad, 0);
    }
}

#[test]
fn bit_repacking_rejects_oversized_values() {
    assert!(convert_bits(&[32], 5, 8, true).is_none());
    assert!(convert_bits(&[31], 5, 8, true).is_some());
}

#[test]
fn bit_repacking_unpadded_rejects_nonzero_leftovers() {
    // one 5-bit group leaves five leftover bits when regrouping to 8
    assert!(convert_bits(&[1], 5, 8, false).is_none());
    // sixteen 5-bit zero groups leave zero leftovers only
    let digits = vec![0u8; 8];
    assert!(convert_bits(&digits, 5, 8, false).is_some());
}

#[test]
fn minimal_push_uses_small_integer_opcodes() {
    for k in 1u8..=16 {
        let s = Script::new(vec![Op::Push(vec![k])]);
        assert_eq!(s.to_vec(), vec![0x50 + k]);
    }
    let empty = Script::new(vec![Op::Push(vec![])]);
    assert_eq!(empty.to_vec(), vec![0x00]);
    let zero = Script::new(vec![Op::Push(vec![0])]);
    assert_eq!(zero.to_vec(), vec![0x01, 0x00]);
    let seventeen = Script::new(vec![Op::Push(vec![17])]);
    assert_eq!(seventeen.to_vec(), vec![0x01, 17]);
}

#[test]
fn non_minimal_push_keeps_length_prefix() {
    let s = Script::new_non_minimal_push(vec![Op::Push(vec![5])]);
    assert_eq!(s.to_vec(), vec![0x01, 5]);
}

#[test]
fn push_length_prefixes_widen_with_payload() {
    let s = Script::new(vec![Op::Push(vec![7u8; 0x4b])]);
    let bytes = s.to_vec();
    assert_eq!(bytes[0], 0x4b);
    assert_eq!(bytes.len(), 1 + 0x4b);
    let s = Script::new(vec![Op::Push(vec![7u8; 0x4c])]);
    let bytes = s.to_vec();
    assert_eq!(&bytes[..2], &[0x4c, 0x4c]);
    let s = Script::new(vec![Op::Push(vec![7u8; 0x100])]);
    let bytes = s.to_vec();
    assert_eq!(&bytes[..3], &[0x4d, 0x00, 0x01]);
    let s = Script::new(vec![Op::Push(vec![7u8; 0x1_0000])]);
    let bytes = s.to_vec();
    assert_eq!(&bytes[..5], &[0x4e, 0x00, 0x00, 0x01, 0x00]);
}

#[test]
fn script_parser_reads_all_push_forms() {
    let source = Script::new_non_minimal_push(vec![
        Op::Push(vec![1, 2, 3]),
        Op::Push(vec![9u8; 0x4c]),
        Op::Push(vec![8u8; 0x100]),
        Op::Code(OpCodeType::OpCheckSig),
    ]);
    let bytes = source.to_vec();
    let parsed = Script::from_serialized(&bytes).expect("a serialized script parses");
    assert_eq!(parsed.ops().len(), 4);
    assert_eq!(parsed.ops()[0], Op::Push(vec![1, 2, 3]));
    assert_eq!(parsed.ops()[1], Op::Push(vec![9u8; 0x4c]));
    assert_eq!(parsed.ops()[2], Op::Push(vec![8u8; 0x100]));
    assert_eq!(parsed.ops()[3], Op::Code(OpCodeType::OpCheckSig));
}

#[test]
fn script_parser_rejects_truncated_pushes() {
    assert!(Script::from_serialized(&[0x03, 1, 2]).is_none());
    assert!(Script::from_serialized(&[0x4c]).is_none());
    assert!(Script::from_serialized(&[0x4d, 0x05, 0x00, 1]).is_none());
    assert!(Script::from_serialized(&[0x4e, 0x05, 0x00, 0x00, 0x00]).is_none());
}

#[test]
fn script_parser_maps_unknown_bytes_to_the_sentinel() {
    let parsed = Script::from_serialized(&[0xc0]).expect("a lone byte parses");
    assert_eq!(parsed.ops()[0], Op::Code(OpCodeType::OpInvalidOpcode));
}
