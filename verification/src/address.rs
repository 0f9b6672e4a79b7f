//! The address codec: a 20-byte hash and a type tag, carried as 5-bit
//! base-32 digits behind a prefix and guarded by the 40-bit checksum.

use vstd::prelude::*;
use crate::ascii::{all_ascii, ascii_chars, lower_bytes, string_from_ascii, to_ascii_lowercase_bytes};
use crate::bits::{
    all_below, convert_bits, lemma_pack_bits_below, lemma_pack_bits_len, lemma_pack_append,
    lemma_pack_stream, lemma_pow2n_8, lemma_stream_bits_append, lemma_stream_pack, pack_bits,
    pad_len, pow2n, stream_bits, zero_bits,
};
use crate::checksum::{
    calculate_checksum, checksum_base, checksum_digits, lemma_checksum_verifies, poly_mod_of,
    verify_checksum, zero_values,
};
use crate::hash::hash160;
use vstd::string::{StringExecFns, StringSliceAdditionalSpecFns};

verus! {

#[derive(Clone, Debug, PartialEq, Eq, Structural)]
pub enum AddressError {
    InvalidChecksum,
    InvalidBase32Letter(usize, u8),
    InvalidAddressType(u8),
}

#[derive(Clone, Copy, Debug, PartialEq, Eq, Structural)]
pub enum AddressType {
    P2PKH,
    P2SH,
}

/// The version byte an address type encodes to.
pub open spec fn addr_type_value(t: AddressType) -> u8 {
    match t {
        AddressType::P2PKH => 0,
        AddressType::P2SH => 8,
    }
}

/// The base-32 alphabet: the ASCII code of each 5-bit digit.
pub open spec fn charset_code(v: u8) -> u8 {
    if v == 0 {
        0x71
    } else if v == 1 {
        0x70
    } else if v == 2 {
        0x7a
    } else if v == 3 {
        0x72
    } else if v == 4 {
        0x79
    } else if v == 5 {
        0x39
    } else if v == 6 {
        0x78
    } else if v == 7 {
        0x38
    } else if v == 8 {
        0x67
    } else if v == 9 {
        0x66
    } else if v == 10 {
        0x32
    } else if v == 11 {
        0x74
    } else if v == 12 {
        0x76
    } else if v == 13 {
        0x64
    } else if v == 14 {
        0x77
    } else if v == 15 {
        0x30
    } else if v == 16 {
        0x73
    } else if v == 17 {
        0x33
    } else if v == 18 {
        0x6a
    } else if v == 19 {
        0x6e
    } else if v == 20 {
        0x35
    } else if v == 21 {
        0x34
    } else if v == 22 {
        0x6b
    } else if v == 23 {
        0x68
    } else if v == 24 {
        0x63
    } else if v == 25 {
        0x65
    } else if v == 26 {
        0x36
    } else if v == 27 {
        0x6d
    } else if v == 28 {
        0x75
    } else if v == 29 {
        0x61
    } else if v == 30 {
        0x37
    } else {
        0x6c
    }
}

/// The 5-bit digit a byte decodes to, if it is in the alphabet.
pub open spec fn charset_value(b: u8) -> Option<u8> {
    if b == 0x71 {
        Some(0u8)
    } else if b == 0x70 {
        Some(1u8)
    } else if b == 0x7a {
        Some(2u8)
    } else if b == 0x72 {
        Some(3u8)
    } else if b == 0x79 {
        Some(4u8)
    } else if b == 0x39 {
        Some(5u8)
    } else if b == 0x78 {
        Some(6u8)
    } else if b == 0x38 {
        Some(7u8)
    } else if b == 0x67 {
        Some(8u8)
    } else if b == 0x66 {
        Some(9u8)
    } else if b == 0x32 {
        Some(10u8)
    } else if b == 0x74 {
        Some(11u8)
    } else if b == 0x76 {
        Some(12u8)
    } else if b == 0x64 {
        Some(13u8)
    } else if b == 0x77 {
        Some(14u8)
    } else if b == 0x30 {
        Some(15u8)
    } else if b == 0x73 {
        Some(16u8)
    } else if b == 0x33 {
        Some(17u8)
    } else if b == 0x6a {
        Some(18u8)
    } else if b == 0x6e {
        Some(19u8)
    } else if b == 0x35 {
        Some(20u8)
    } else if b == 0x34 {
        Some(21u8)
    } else if b == 0x6b {
        Some(22u8)
    } else if b == 0x68 {
        Some(23u8)
    } else if b == 0x63 {
        Some(24u8)
    } else if b == 0x65 {
        Some(25u8)
    } else if b == 0x36 {
        Some(26u8)
    } else if b == 0x6d {
        Some(27u8)
    } else if b == 0x75 {
        Some(28u8)
    } else if b == 0x61 {
        Some(29u8)
    } else if b == 0x37 {
        Some(30u8)
    } else if b == 0x6c {
        Some(31u8)
    } else {
        None
    }
}

/// Decoding a digit's code gives the digit back.
pub proof fn lemma_charset_round_trip(v: u8)
    requires
        v < 32,
    ensures
        charset_value(charset_code(v)) == Some(v),
{
}

/// The characters of a digit sequence under the alphabet.
pub open spec fn b32_chars(digits: Seq<u8>) -> Seq<char> {
    Seq::new(digits.len(), |i: int| charset_code(digits[i]) as char)
}

/// Every payload byte decodes as a base-32 digit.
pub open spec fn digits_ok(pay: Seq<u8>) -> bool {
    forall|i: int| 0 <= i < pay.len() ==> charset_value(#[trigger] pay[i]) is Some
}

/// The digit sequence a payload decodes to.
pub open spec fn digit_seq(pay: Seq<u8>) -> Seq<u8> {
    Seq::new(pay.len(), |i: int| charset_value(pay[i])->0)
}

/// The first payload index whose byte is not in the alphabet.
pub open spec fn first_bad(pay: Seq<u8>) -> int
    decreases pay.len(),
{
    if pay.len() == 0 {
        0int
    } else if charset_value(pay.first()) is None {
        0int
    } else {
        1 + first_bad(pay.drop_first())
    }
}

proof fn lemma_first_bad(pay: Seq<u8>, i: int)
    requires
        0 <= i < pay.len(),
        charset_value(pay[i]) is None,
        forall|j: int| 0 <= j < i ==> charset_value(#[trigger] pay[j]) is Some,
    ensures
        first_bad(pay) == i,
    decreases i,
{
    if i == 0 {
    } else {
        assert(charset_value(pay.first()) is Some);
        let rest = pay.drop_first();
        assert(rest[i - 1] == pay[i]);
        assert(forall|j: int| 0 <= j < i - 1 ==> charset_value(#[trigger] rest[j]) is Some)
            by {
            assert(forall|j: int| 0 <= j < i - 1 ==> rest[j] == pay[j + 1]);
        }
        lemma_first_bad(rest, i - 1);
    }
}

/// The position of the first separator byte at or after `i`.
pub open spec fn find_colon(s: Seq<u8>, i: int) -> Option<int>
    decreases s.len() - i when 0 <= i <= s.len()
{
    if i >= s.len() {
        None
    } else if s[i] == 0x3a {
        Some(i)
    } else {
        find_colon(s, i + 1)
    }
}

/// The canonical mainnet prefix, as bytes.
pub open spec fn default_prefix_bytes() -> Seq<u8> {
    seq![0x62u8, 0x69, 0x74, 0x63, 0x6f, 0x69, 0x6e, 0x63, 0x61, 0x73, 0x68]
}

/// The prefix part of a lowercased address: what stands before the first
/// separator, or the canonical prefix when there is none.
pub open spec fn split_prefix(lower: Seq<u8>) -> Seq<u8> {
    match find_colon(lower, 0) {
        Some(p) => lower.take(p),
        None => default_prefix_bytes(),
    }
}

/// The payload part of a lowercased address: what follows the first
/// separator, or the whole string when there is none.
pub open spec fn split_payload(lower: Seq<u8>) -> Seq<u8> {
    match find_colon(lower, 0) {
        Some(p) => lower.skip(p + 1),
        None => lower,
    }
}

/// The 5-bit digits of the version byte and hash.
pub open spec fn addr_payload(typ: u8, hash: Seq<u8>) -> Seq<u8> {
    pack_bits(stream_bits(seq![typ] + hash, 8), 5)
}

/// The full digit sequence of an address: payload digits then the eight
/// checksum digits.
pub open spec fn payload_with_checksum(pb: Seq<u8>, typ: u8, hash: Seq<u8>) -> Seq<u8> {
    addr_payload(typ, hash) + checksum_digits(
        poly_mod_of(checksum_base(pb, addr_payload(typ, hash)) + zero_values(8)),
    )
}

/// The byte string of a whole encoded address.
pub open spec fn encode_bytes(pb: Seq<u8>, typ: u8, hash: Seq<u8>) -> Seq<u8> {
    pb + seq![0x3au8] + payload_with_checksum(pb, typ, hash).map_values(
        |v: u8| charset_code(v),
    )
}

/// The whole decoding pipeline: lowercase, split at the separator, decode
/// the digits, check the checksum and the length, regroup to bytes, and
/// read off the type and hash.
pub open spec fn decode_spec(input: Seq<u8>) -> Result<(Seq<u8>, u8, Seq<u8>), AddressError> {
    let lower = lower_bytes(input);
    let pb = split_prefix(lower);
    let pay = split_payload(lower);
    if !digits_ok(pay) {
        Err(AddressError::InvalidBase32Letter(first_bad(pay) as usize, pay[first_bad(pay)]))
    } else {
        let digits = digit_seq(pay);
        if poly_mod_of(checksum_base(pb, digits)) != 0 || digits.len() != 42 || !all_ascii(pb) {
            Err(AddressError::InvalidChecksum)
        } else {
            let conv = pack_bits(stream_bits(digits, 5), 8);
            if conv[0] == 0 || conv[0] == 8 {
                Ok((conv.subrange(1, 21), conv[0], pb))
            } else {
                Err(AddressError::InvalidAddressType(conv[0]))
            }
        }
    }
}

fn addr_type_byte(t: AddressType) -> (r: u8)
    ensures
        r == addr_type_value(t),
{
    match t {
        AddressType::P2PKH => 0,
        AddressType::P2SH => 8,
    }
}

fn charset_byte(v: u8) -> (r: u8)
    requires
        v < 32,
    ensures
        r == charset_code(v),
{
    match v {
        0 => 0x71,
        1 => 0x70,
        2 => 0x7a,
        3 => 0x72,
        4 => 0x79,
        5 => 0x39,
        6 => 0x78,
        7 => 0x38,
        8 => 0x67,
        9 => 0x66,
        10 => 0x32,
        11 => 0x74,
        12 => 0x76,
        13 => 0x64,
        14 => 0x77,
        15 => 0x30,
        16 => 0x73,
        17 => 0x33,
        18 => 0x6a,
        19 => 0x6e,
        20 => 0x35,
        21 => 0x34,
        22 => 0x6b,
        23 => 0x68,
        24 => 0x63,
        25 => 0x65,
        26 => 0x36,
        27 => 0x6d,
        28 => 0x75,
        29 => 0x61,
        30 => 0x37,
        _ => 0x6c,
    }
}

fn charset_digit(b: u8) -> (r: Option<u8>)
    ensures
        r == charset_value(b),
{
    match b {
        0x71 => Some(0),
        0x70 => Some(1),
        0x7a => Some(2),
        0x72 => Some(3),
        0x79 => Some(4),
        0x39 => Some(5),
        0x78 => Some(6),
        0x38 => Some(7),
        0x67 => Some(8),
        0x66 => Some(9),
        0x32 => Some(10),
        0x74 => Some(11),
        0x76 => Some(12),
        0x64 => Some(13),
        0x77 => Some(14),
        0x30 => Some(15),
        0x73 => Some(16),
        0x33 => Some(17),
        0x6a => Some(18),
        0x6e => Some(19),
        0x35 => Some(20),
        0x34 => Some(21),
        0x6b => Some(22),
        0x68 => Some(23),
        0x63 => Some(24),
        0x65 => Some(25),
        0x36 => Some(26),
        0x6d => Some(27),
        0x75 => Some(28),
        0x61 => Some(29),
        0x37 => Some(30),
        0x6c => Some(31),
        _ => None,
    }
}

/// Spells a digit sequence in the base-32 alphabet.
pub fn b32_encode(data: &[u8]) -> (r: String)
    requires
        forall|i: int| 0 <= i < data@.len() ==> #[trigger] data@[i] < 32,
    ensures
        r@ == b32_chars(data@),
{
    let mut codes: Vec<u8> = Vec::new();
    let mut i: usize = 0;
    while i < data.len()
        invariant
            i <= data@.len(),
            forall|j: int| 0 <= j < data@.len() ==> #[trigger] data@[j] < 32,
            all_ascii(codes@),
            codes@.len() == i,
            forall|j: int| 0 <= j < i ==> codes@[j] == charset_code(#[trigger] data@[j]),
        decreases data@.len() - i,
    {
        let c = charset_byte(data[i]);
        assert(charset_code(data@[i as int]) < 0x80);
        codes.push(c);
        i += 1;
    }
    proof {
        assert(ascii_chars(codes@) =~= b32_chars(data@));
    }
    string_from_ascii(codes)
}

/// Decodes payload bytes into 5-bit digits, reporting the first byte that
/// is not in the alphabet.
pub fn b32_decode(data: &[u8]) -> (r: Result<Vec<u8>, AddressError>)
    ensures
        match r {
            Ok(vals) => digits_ok(data@) && vals@ == digit_seq(data@),
            Err(e) => !digits_ok(data@) && e == AddressError::InvalidBase32Letter(
                first_bad(data@) as usize,
                data@[first_bad(data@)],
            ),
        },
{
    let mut out: Vec<u8> = Vec::new();
    let mut i: usize = 0;
    while i < data.len()
        invariant
            i <= data@.len(),
            out@.len() == i,
            forall|j: int| 0 <= j < i ==> charset_value(#[trigger] data@[j]) is Some,
            forall|j: int| 0 <= j < i ==> out@[j] == charset_value(#[trigger] data@[j])->0,
        decreases data@.len() - i,
    {
        match charset_digit(data[i]) {
            Some(v) => {
                out.push(v);
            },
            None => {
                proof {
                    lemma_first_bad(data@, i as int);
                }
                return Err(AddressError::InvalidBase32Letter(i, data[i]));
            },
        }
        i += 1;
    }
    proof {
        assert(out@ =~= digit_seq(data@));
    }
    Ok(out)
}

/// Encodes a prefix, type and 20-byte hash as an address string.
pub fn to_cash_addr(prefix: &str, addr_type: AddressType, addr_bytes: &[u8; 20]) -> (r: String)
    ensures
        r@ == prefix@ + seq![':'] + b32_chars(
            payload_with_checksum(prefix.spec_bytes(), addr_type_value(addr_type), addr_bytes@),
        ),
{
    let tv = addr_type_byte(addr_type);
    let mut body: Vec<u8> = Vec::new();
    body.push(tv);
    body.extend_from_slice(addr_bytes.as_slice());
    proof {
        assert(body@ =~= seq![addr_type_value(addr_type)] + addr_bytes@);
        lemma_pow2n_8();
        assert(all_below(body@, 8));
    }
    let payload = match convert_bits(body.as_slice(), 8, 5, true) {
        Some(p) => p,
        None => {
            proof {
                assert(false);
            }
            Vec::new()
        },
    };
    let checksum = calculate_checksum(prefix.as_bytes(), payload.as_slice());
    let mut digits = payload;
    let ghost payload_view = digits@;
    digits.extend_from_slice(checksum.as_slice());
    proof {
        lemma_pack_bits_below(stream_bits(body@, 8), 5);
        lemma_pow2n_8();
        assert(digits@ =~= payload_with_checksum(
            prefix.spec_bytes(),
            addr_type_value(addr_type),
            addr_bytes@,
        ));
        assert forall|i: int| 0 <= i < digits@.len() implies #[trigger] digits@[i] < 32 by {
            if i < payload_view.len() {
                assert(payload_view[i] < pow2n(5));
            } else {
                assert(checksum@[i - payload_view.len()] < 32);
            }
        }
    }
    let tail = b32_encode(digits.as_slice());
    let mut s = prefix.to_owned();
    s.append(":");
    s.append(tail.as_str());
    proof {
        reveal_strlit(":");
        assert(s@ =~= prefix@ + seq![':'] + b32_chars(
            payload_with_checksum(prefix.spec_bytes(), addr_type_value(addr_type), addr_bytes@),
        ));
    }
    s
}

/// Decodes an address string into its hash, type and prefix.
pub fn from_cash_addr(addr_string: &str) -> (r: Result<([u8; 20], AddressType, String), AddressError>)
    ensures
        match r {
            Ok((hash, t, prefix)) => {
                &&& decode_spec(addr_string.spec_bytes()) is Ok
                &&& hash@ == decode_spec(addr_string.spec_bytes())->Ok_0.0
                &&& addr_type_value(t) == decode_spec(addr_string.spec_bytes())->Ok_0.1
                &&& prefix@ == ascii_chars(decode_spec(addr_string.spec_bytes())->Ok_0.2)
            },
            Err(e) => {
                &&& decode_spec(addr_string.spec_bytes()) is Err
                &&& e == decode_spec(addr_string.spec_bytes())->Err_0
            },
        },
{
    let ghost input = addr_string.spec_bytes();
    let lower = to_ascii_lowercase_bytes(addr_string.as_bytes());
    let n = lower.len();
    let mut pos: usize = 0;
    let mut colon: Option<usize> = None;
    while pos < n
        invariant
            n == lower@.len(),
            pos <= n,
            match colon {
                Some(p) => find_colon(lower@, 0) == Some(p as int) && p < n,
                None => find_colon(lower@, 0) == find_colon(lower@, pos as int),
            },
        decreases n - pos,
    {
        if colon.is_none() && lower[pos] == 0x3a {
            colon = Some(pos);
        }
        pos += 1;
    }
    let (prefix_vec, payload_start): (Vec<u8>, usize) = match colon {
        Some(p) => {
            let mut pv: Vec<u8> = Vec::new();
            let mut k: usize = 0;
            while k < p
                invariant
                    p < lower@.len(),
                    k <= p,
                    pv@ =~= lower@.take(p as int).take(k as int),
                decreases p - k,
            {
                pv.push(lower[k]);
                k += 1;
                assert(pv@ =~= lower@.take(p as int).take(k as int));
            }
            proof {
                assert(lower@.take(p as int).take(p as int) =~= lower@.take(p as int));
                assert(pv@ == split_prefix(lower@));
                assert(lower@.skip(p + 1) == split_payload(lower@));
            }
            (pv, p + 1)
        },
        None => {
            let mut pv: Vec<u8> = Vec::new();
            pv.push(0x62);
            pv.push(0x69);
            pv.push(0x74);
            pv.push(0x63);
            pv.push(0x6f);
            pv.push(0x69);
            pv.push(0x6e);
            pv.push(0x63);
            pv.push(0x61);
            pv.push(0x73);
            pv.push(0x68);
            proof {
                assert(pv@ =~= default_prefix_bytes());
                assert(pv@ == split_prefix(lower@));
                assert(lower@.skip(0) =~= lower@);
                assert(lower@.skip(0) == split_payload(lower@));
            }
            (pv, 0)
        },
    };
    assert(prefix_vec@ == split_prefix(lower@));
    assert(lower@.skip(payload_start as int) == split_payload(lower@));
    let mut payload_vec: Vec<u8> = Vec::new();
    let mut k: usize = payload_start;
    while k < n
        invariant
            payload_start <= lower@.len(),
            n == lower@.len(),
            payload_start <= k <= n,
            payload_vec@ =~= lower@.skip(payload_start as int).take(k - payload_start),
        decreases n - k,
    {
        payload_vec.push(lower[k]);
        k += 1;
        assert(payload_vec@ =~= lower@.skip(payload_start as int).take(k - payload_start));
    }
    proof {
        assert(lower@.skip(payload_start as int).take(n - payload_start) =~= lower@.skip(
            payload_start as int,
        ));
        assert(payload_vec@ == split_payload(lower@));
    }
    let digits = match b32_decode(payload_vec.as_slice()) {
        Ok(d) => d,
        Err(e) => {
            return Err(e);
        },
    };
    if !verify_checksum(prefix_vec.as_slice(), digits.as_slice()) {
        return Err(AddressError::InvalidChecksum);
    }
    if digits.len() != 42 {
        return Err(AddressError::InvalidChecksum);
    }
    let mut ascii_ok = true;
    let mut k2: usize = 0;
    while k2 < prefix_vec.len()
        invariant
            k2 <= prefix_vec@.len(),
            ascii_ok == (forall|j: int| 0 <= j < k2 ==> #[trigger] prefix_vec@[j] < 0x80),
        decreases prefix_vec@.len() - k2,
    {
        if prefix_vec[k2] >= 0x80 {
            ascii_ok = false;
        }
        k2 += 1;
    }
    // A prefix with a byte outside ASCII has no lossless respelling as a
    // prefix string, so it is rejected with the checksum error.
    if !ascii_ok {
        return Err(AddressError::InvalidChecksum);
    }
    assert(all_ascii(prefix_vec@));
    proof {
        lemma_pow2n_8();
        assert forall|i: int| 0 <= i < digits@.len() implies digits@[i] < pow2n(5) by {
            assert(charset_value(split_payload(lower@)[i]) is Some);
            assert(digits@[i] == charset_value(split_payload(lower@)[i])->0);
        }
    }
    let converted = match convert_bits(digits.as_slice(), 5, 8, true) {
        Some(c) => c,
        None => {
            proof {
                assert(false);
            }
            Vec::new()
        },
    };
    proof {
        lemma_pack_stream_len_42(digits@);
    }
    let type_byte = converted[0];
    let t = if type_byte == 0 {
        AddressType::P2PKH
    } else if type_byte == 8 {
        AddressType::P2SH
    } else {
        return Err(AddressError::InvalidAddressType(type_byte));
    };
    let mut hash = [0u8; 20];
    let mut k3: usize = 0;
    while k3 < 20
        invariant
            converted@.len() == 27,
            k3 <= 20,
            forall|j: int| 0 <= j < k3 ==> hash@[j] == converted@[j + 1],
        decreases 20 - k3,
    {
        hash[k3] = converted[k3 + 1];
        k3 += 1;
    }
    proof {
        assert(hash@ =~= converted@.subrange(1, 21));
    }
    let prefix_string = string_from_ascii(prefix_vec);
    Ok((hash, t, prefix_string))
}

/// Forty-two 5-bit digits regroup into exactly twenty-seven bytes.
proof fn lemma_pack_stream_len_42(digits: Seq<u8>)
    requires
        digits.len() == 42,
    ensures
        pack_bits(stream_bits(digits, 5), 8).len() == 27,
        stream_bits(digits, 5).len() == 210,
{
    assert(all_below(digits, 5) || !all_below(digits, 5));
    lemma_stream_bits_len(digits, 5);
    lemma_pack_bits_len(stream_bits(digits, 5), 8);
}

/// A stream of `n` groups of `w` bits is `n * w` bits long.
pub proof fn lemma_stream_bits_len(data: Seq<u8>, w: nat)
    ensures
        stream_bits(data, w).len() == data.len() * w,
    decreases data.len(),
{
    if data.len() == 0 {
        assert(data.len() * w == 0) by (nonlinear_arith)
            requires
                data.len() == 0,
        ;
    } else {
        crate::bits::lemma_bits_of_value_len(data.first(), w);
        lemma_stream_bits_len(data.drop_first(), w);
        assert(w + (data.len() - 1) * w == data.len() * w) by (nonlinear_arith);
    }
}


/// No byte of the alphabet is an uppercase letter or the separator.
proof fn lemma_charset_code_stable(v: u8)
    requires
        v < 32,
    ensures
        charset_code(v) != 0x3a,
        !(0x41 <= charset_code(v) <= 0x5a),
        charset_code(v) < 0x80,
{
}

proof fn lemma_find_colon_from(s: Seq<u8>, i: int, p: int)
    requires
        0 <= i <= p < s.len(),
        s[p] == 0x3a,
        forall|j: int| i <= j < p ==> s[j] != 0x3a,
    ensures
        find_colon(s, i) == Some(p),
    decreases p - i,
{
    if i < p {
        lemma_find_colon_from(s, i + 1, p);
    }
}

/// The digit count of a 21-byte body.
proof fn lemma_addr_payload_len(typ: u8, hash: Seq<u8>)
    requires
        hash.len() == 20,
    ensures
        addr_payload(typ, hash).len() == 34,
        stream_bits(seq![typ] + hash, 8).len() == 168,
{
    lemma_stream_bits_len(seq![typ] + hash, 8);
    lemma_pack_bits_len(stream_bits(seq![typ] + hash, 8), 5);
}

/// Address round trip: decoding an encoded address returns the hash, the
/// type byte and the prefix it was built from, for any prefix without
/// uppercase letters or a separator of its own.
pub proof fn lemma_cash_addr_round_trip(pb: Seq<u8>, typ: u8, hash: Seq<u8>)
    requires
        typ == 0 || typ == 8,
        hash.len() == 20,
        all_ascii(pb),
        forall|i: int| 0 <= i < pb.len() ==> pb[i] != 0x3a && !(0x41 <= #[trigger] pb[i] <= 0x5a),
    ensures
        decode_spec(encode_bytes(pb, typ, hash)) is Ok,
        decode_spec(encode_bytes(pb, typ, hash))->Ok_0.0 == hash,
        decode_spec(encode_bytes(pb, typ, hash))->Ok_0.1 == typ,
        decode_spec(encode_bytes(pb, typ, hash))->Ok_0.2 == pb,
{
    lemma_pow2n_8();
    let body = seq![typ] + hash;
    let ap = addr_payload(typ, hash);
    let base = checksum_base(pb, ap);
    let cs = checksum_digits(poly_mod_of(base + zero_values(8)));
    let pwc = payload_with_checksum(pb, typ, hash);
    assert(pwc == ap + cs);
    let db = pwc.map_values(|v: u8| charset_code(v));
    let input = encode_bytes(pb, typ, hash);
    assert(input == pb + seq![0x3au8] + db);

    // every digit of the full payload is below 32
    lemma_addr_payload_len(typ, hash);
    assert(cs.len() == 8);
    lemma_pack_bits_below(stream_bits(body, 8), 5);
    assert forall|i: int| 0 <= i < pwc.len() implies #[trigger] pwc[i] < 32 by {
        if i < ap.len() {
            assert(ap[i] < pow2n(5));
        } else {
            assert(cs[i - 34] < 32);
        }
    }

    // lowercasing leaves the encoded bytes unchanged
    assert forall|i: int| 0 <= i < input.len() implies crate::ascii::lower_byte(
        #[trigger] input[i],
    ) == input[i] by {
        if i < pb.len() {
        } else if i == pb.len() {
        } else {
            let v = pwc[i - pb.len() - 1];
            assert(db[i - pb.len() - 1] == charset_code(v));
            lemma_charset_code_stable(v);
        }
    }
    let lower = lower_bytes(input);
    assert(lower =~= input);

    // the first separator stands right after the prefix
    assert forall|j: int| 0 <= j < pb.len() implies input[j] != 0x3a by {}
    assert forall|j: int| pb.len() < j < input.len() implies input[j] != 0x3a by {
        let v = pwc[j - pb.len() - 1];
        lemma_charset_code_stable(v);
    }
    assert(input[pb.len() as int] == 0x3a);
    lemma_find_colon_from(input, 0, pb.len() as int);
    assert(find_colon(lower, 0) == Some(pb.len() as int));
    assert(split_prefix(lower) =~= pb);
    assert(split_payload(lower) =~= db);

    // the payload decodes digit for digit
    assert forall|i: int| 0 <= i < db.len() implies charset_value(#[trigger] db[i]) is Some by {
        lemma_charset_round_trip(pwc[i]);
    }
    assert(digits_ok(db)) by {
        assert(forall|i: int|
            0 <= i < db.len() ==> charset_value(#[trigger] db[i]) is Some);
    }
    assert(digit_seq(db) =~= pwc) by {
        assert forall|i: int| 0 <= i < db.len() implies digit_seq(db)[i] == pwc[i] by {
            lemma_charset_round_trip(pwc[i]);
        }
    }

    // the checksum verifies
    lemma_checksum_verifies(base);
    assert(checksum_base(pb, pwc) =~= base + cs);
    assert(poly_mod_of(checksum_base(pb, pwc)) == 0);
    assert(pwc.len() == 42);

    // the digits regroup into the version byte, the hash and padding
    let bits8 = stream_bits(body, 8);
    lemma_pack_stream(body, 8);
    lemma_stream_bits_append(ap, cs, 5);
    lemma_stream_pack(bits8, 5);
    assert(pad_len(168, 5) == 2);
    assert(stream_bits(ap, 5) == bits8 + zero_bits(2));
    let tailbits = zero_bits(2) + stream_bits(cs, 5);
    assert(stream_bits(pwc, 5) =~= bits8 + tailbits);
    assert(bits8.len() % 8 == 0);
    lemma_pack_append(bits8, tailbits, 8);
    let conv = pack_bits(stream_bits(pwc, 5), 8);
    assert(conv == pack_bits(bits8, 8) + pack_bits(tailbits, 8));
    assert(pack_bits(bits8, 8) == body);
    assert(conv[0] == typ);
    assert(conv.subrange(1, 21) =~= hash) by {
        assert forall|i: int| 0 <= i < 20 implies conv.subrange(1, 21)[i] == hash[i] by {
            assert(conv[i + 1] == body[i + 1]);
        }
    }
}

proof fn lemma_find_colon_sound(s: Seq<u8>, i: int, p: int)
    requires
        0 <= i <= s.len(),
        find_colon(s, i) == Some(p),
    ensures
        i <= p < s.len(),
        s[p] == 0x3a,
        forall|j: int| i <= j < p ==> s[j] != 0x3a,
    decreases s.len() - i,
{
    if i < s.len() && s[i] != 0x3a {
        lemma_find_colon_sound(s, i + 1, p);
    }
}

/// A byte of the alphabet is already lowercase.
proof fn lemma_charset_byte_lower(b: u8)
    requires
        charset_value(b) is Some,
    ensures
        crate::ascii::lower_byte(b) == b,
        b != 0x3a,
{
}

/// Checksum rejection: changing any single payload digit of an address
/// that decodes, to any other digit of the alphabet, makes decoding fail
/// with a checksum error. Stated for lowercase inputs; a mixed-case
/// address lowercases to the same digits first.
pub proof fn lemma_digit_flip_rejected(input: Seq<u8>, i: int, c: u8)
    requires
        decode_spec(input) is Ok,
        lower_bytes(input) == input,
        find_colon(input, 0) is Some,
        find_colon(input, 0)->0 < i < input.len(),
        charset_value(c) is Some,
        c != input[i],
    ensures
        decode_spec(input.update(i, c)) == Err::<(Seq<u8>, u8, Seq<u8>), AddressError>(
            AddressError::InvalidChecksum,
        ),
{
    let p = find_colon(input, 0)->0;
    lemma_find_colon_sound(input, 0, p);
    let u = input.update(i, c);

    // lowercasing leaves the updated string unchanged
    assert(lower_bytes(u) =~= u) by {
        assert forall|j: int| 0 <= j < u.len() implies crate::ascii::lower_byte(
            #[trigger] u[j],
        ) == u[j] by {
            if j == i {
                lemma_charset_byte_lower(c);
            } else {
                assert(lower_bytes(input)[j] == crate::ascii::lower_byte(input[j]));
            }
        }
    }

    // the separator stands where it stood
    lemma_charset_byte_lower(c);
    lemma_find_colon_from(u, 0, p);
    assert(split_prefix(u) =~= split_prefix(input));
    let pay = split_payload(input);
    let pay2 = split_payload(u);
    let k = i - p - 1;
    assert(pay2 =~= pay.update(k, c));

    // the old payload is all alphabet bytes, so the new one is too
    assert(digits_ok(pay));
    assert(digits_ok(pay2)) by {
        assert forall|j: int| 0 <= j < pay2.len() implies charset_value(
            #[trigger] pay2[j],
        ) is Some by {
            if j != k {
                assert(pay2[j] == pay[j]);
            }
        }
    }

    // the flipped digit differs as a five-bit value
    let d_old = charset_value(pay[k])->0;
    let d_new = charset_value(c)->0;
    assert(charset_code(d_old) == pay[k] && charset_code(d_new) == c) by {
        lemma_charset_code_of_value(pay[k]);
        lemma_charset_code_of_value(c);
    }
    assert(d_new != d_old);
    assert(digit_seq(pay2) =~= digit_seq(pay).update(k, d_new));

    // one changed digit in the checksum input changes the checksum
    let base = checksum_base(split_prefix(input), digit_seq(pay));
    let base2 = checksum_base(split_prefix(input), digit_seq(pay2));
    let off = crate::checksum::masked(split_prefix(input)).len() + 1 + k;
    assert(base2 =~= base.update(off as int, d_new));
    assert(base[off as int] == d_old);
    crate::checksum::lemma_checksum_detects_flip(base, off as int, d_new);
    assert(poly_mod_of(base) == 0);
    assert(poly_mod_of(base2) != 0);
}

/// A byte the alphabet maps is the code of its digit.
proof fn lemma_charset_code_of_value(b: u8)
    requires
        charset_value(b) is Some,
    ensures
        charset_code(charset_value(b)->0) == b,
{
}

/// An address: its type, its 20-byte hash, its prefix, and the cached
/// encoded string.
#[derive(Clone, Debug)]
pub struct Address {
    pub addr_type: AddressType,
    pub bytes: [u8; 20],
    pub cash_addr: String,
    pub prefix: String,
}

impl Address {
    /// The cached string is the encoding of the other three fields.
    pub open spec fn wf(&self) -> bool {
        self.cash_addr@ == self.prefix@ + seq![':'] + b32_chars(
            payload_with_checksum(
                Seq::new(self.prefix@.len(), |i: int| self.prefix@[i] as u8),
                addr_type_value(self.addr_type),
                self.bytes@,
            ),
        )
    }

    pub fn from_bytes_prefix(prefix: &str, addr_type: AddressType, bytes: [u8; 20]) -> (r:
        Address)
        ensures
            r.addr_type == addr_type,
            r.bytes@ == bytes@,
            r.prefix@ == prefix@,
            r.cash_addr@ == prefix@ + seq![':'] + b32_chars(
                payload_with_checksum(prefix.spec_bytes(), addr_type_value(addr_type), bytes@),
            ),
    {
        let cash_addr = to_cash_addr(prefix, addr_type, &bytes);
        Address { cash_addr, addr_type, prefix: prefix.to_owned(), bytes }
    }

    pub fn from_bytes(addr_type: AddressType, bytes: [u8; 20]) -> (r: Address)
        ensures
            r.addr_type == addr_type,
            r.bytes@ == bytes@,
            r.prefix@ == "bitcoincash"@,
            r.cash_addr@ == "bitcoincash"@ + seq![':'] + b32_chars(
                payload_with_checksum(
                    "bitcoincash".spec_bytes(),
                    addr_type_value(addr_type),
                    bytes@,
                ),
            ),
    {
        Address::from_bytes_prefix("bitcoincash", addr_type, bytes)
    }

    /// The address whose hash is the hash160 of a serialized public key.
    pub fn from_pub_key(prefix: &str, pub_key: &[u8]) -> (r: Address)
        ensures
            r.addr_type == AddressType::P2PKH,
            r.bytes@ == crate::hash::hash160_of(pub_key@),
            r.prefix@ == prefix@,
    {
        Address::from_bytes_prefix(prefix, AddressType::P2PKH, hash160(pub_key))
    }

    /// Decodes an address string; the cache of the result holds the
    /// canonical respelling of what was decoded, not the argument, so a
    /// mixed-case or prefixless input comes out in canonical form.
    pub fn from_cash_addr(cash_addr: String) -> (r: Result<Address, AddressError>)
        ensures
            match r {
                Ok(addr) => {
                    let d = decode_spec(vstd::utf8::encode_utf8(cash_addr@))->Ok_0;
                    &&& decode_spec(vstd::utf8::encode_utf8(cash_addr@)) is Ok
                    &&& addr.bytes@ == d.0
                    &&& addr_type_value(addr.addr_type) == d.1
                    &&& addr.prefix@ == ascii_chars(d.2)
                    &&& addr.cash_addr@ == ascii_chars(d.2) + seq![':'] + b32_chars(
                        payload_with_checksum(d.2, d.1, d.0),
                    )
                    &&& addr.wf()
                },
                Err(e) => {
                    &&& decode_spec(vstd::utf8::encode_utf8(cash_addr@)) is Err
                    &&& e == decode_spec(vstd::utf8::encode_utf8(cash_addr@))->Err_0
                },
            },
    {
        let (bytes, addr_type, prefix) = match from_cash_addr(cash_addr.as_str()) {
            Ok(parts) => parts,
            Err(e) => {
                return Err(e);
            },
        };
        proof {
            let d = decode_spec(vstd::utf8::encode_utf8(cash_addr@))->Ok_0;
            assert(all_ascii(d.2));
            assert(vstd::utf8::is_ascii_chars(prefix@)) by {
                assert forall|i: int|
                    0 <= i < prefix@.len() implies '\0' <= #[trigger] prefix@[i]
                    <= '\u{7f}' by {
                    assert(prefix@[i] == d.2[i] as char);
                    assert(d.2[i] < 0x80);
                }
            }
            vstd::utf8::is_ascii_chars_encode_utf8(prefix@);
            assert(vstd::utf8::encode_utf8(prefix@) =~= d.2);
            assert(Seq::new(prefix@.len(), |i: int| prefix@[i] as u8) =~= d.2);
        }
        let addr = Address::from_bytes_prefix(prefix.as_str(), addr_type, bytes);
        Ok(addr)
    }

    /// A field-for-field copy.
    pub fn duplicate(&self) -> (r: Address)
        ensures
            r == *self,
    {
        Address {
            addr_type: self.addr_type,
            bytes: self.bytes,
            cash_addr: self.cash_addr.clone(),
            prefix: self.prefix.clone(),
        }
    }

    pub fn bytes(&self) -> (r: &[u8; 20])
        ensures
            r@ == self.bytes@,
    {
        &self.bytes
    }

    pub fn cash_addr(&self) -> (r: &str)
        ensures
            r@ == self.cash_addr@,
    {
        self.cash_addr.as_str()
    }

    pub fn addr_type(&self) -> (r: AddressType)
        ensures
            r == self.addr_type,
    {
        self.addr_type
    }

    pub fn prefix(&self) -> (r: &str)
        ensures
            r@ == self.prefix@,
    {
        self.prefix.as_str()
    }
}

} // verus!
