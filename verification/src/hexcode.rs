//! Hexadecimal encoding and decoding of byte strings.

use vstd::prelude::*;
use crate::ascii::{all_ascii, ascii_chars, string_from_ascii};
use vstd::string::StrSliceExecFns;

verus! {

/// The ASCII code of a hex digit: `0`-`9` then lowercase `a`-`f`.
pub open spec fn nibble_code(v: u8) -> u8
    recommends
        v < 16,
{
    if v < 10 {
        (0x30 + v) as u8
    } else {
        (0x57 + v) as u8
    }
}

/// The character of a hex digit.
pub open spec fn nibble_char(v: u8) -> char {
    nibble_code(v) as char
}

/// The hex spelling of a byte string, two lowercase digits per byte.
pub open spec fn hex_chars_of(data: Seq<u8>) -> Seq<char>
    decreases data.len(),
{
    if data.len() == 0 {
        Seq::empty()
    } else {
        seq![nibble_char(data.first() / 16), nibble_char(data.first() % 16)] + hex_chars_of(
            data.drop_first(),
        )
    }
}

/// The value of a hex digit character, upper or lower case.
pub open spec fn nibble_of_char(c: char) -> Option<u8> {
    let u = c as u32;
    if 0x30 <= u <= 0x39 {
        Some((u - 0x30) as u8)
    } else if 0x61 <= u <= 0x66 {
        Some((u - 0x57) as u8)
    } else if 0x41 <= u <= 0x46 {
        Some((u - 0x37) as u8)
    } else {
        None
    }
}

/// The bytes spelled by a hex string: `None` on an odd length or a
/// non-digit character.
pub open spec fn hex_value_of(s: Seq<char>) -> Option<Seq<u8>>
    decreases s.len(),
{
    if s.len() == 0 {
        Some(Seq::empty())
    } else if s.len() == 1 {
        None
    } else {
        match (nibble_of_char(s[0]), nibble_of_char(s[1])) {
            (Some(hi), Some(lo)) => match hex_value_of(s.skip(2)) {
                Some(t) => Some(seq![(hi * 16 + lo) as u8] + t),
                None => None,
            },
            _ => None,
        }
    }
}

proof fn lemma_hex_chars_push(data: Seq<u8>, b: u8)
    ensures
        hex_chars_of(data.push(b)) == hex_chars_of(data) + seq![
            nibble_char(b / 16),
            nibble_char(b % 16),
        ],
    decreases data.len(),
{
    if data.len() == 0 {
        assert(data.push(b).drop_first() =~= data);
        assert(hex_chars_of(data) == Seq::<char>::empty());
        assert(hex_chars_of(data.push(b)) =~= hex_chars_of(data) + seq![
            nibble_char(b / 16),
            nibble_char(b % 16),
        ]);
    } else {
        assert(data.push(b).drop_first() =~= data.drop_first().push(b));
        lemma_hex_chars_push(data.drop_first(), b);
        assert(hex_chars_of(data.push(b)) =~= hex_chars_of(data) + seq![
            nibble_char(b / 16),
            nibble_char(b % 16),
        ]);
    }
}

pub fn hex_encode(data: &[u8]) -> (r: String)
    ensures
        r@ == hex_chars_of(data@),
{
    let mut codes: Vec<u8> = Vec::new();
    let mut i: usize = 0;
    while i < data.len()
        invariant
            i <= data@.len(),
            all_ascii(codes@),
            ascii_chars(codes@) =~= hex_chars_of(data@.take(i as int)),
        decreases data@.len() - i,
    {
        let b = data[i];
        let hi = b / 16;
        let lo = b % 16;
        codes.push(if hi < 10 {
            0x30 + hi
        } else {
            0x57 + hi
        });
        codes.push(if lo < 10 {
            0x30 + lo
        } else {
            0x57 + lo
        });
        i += 1;
        proof {
            lemma_hex_chars_push(data@.take(i - 1), b);
            assert(data@.take(i as int) =~= data@.take(i - 1).push(b));
            assert(ascii_chars(codes@) =~= hex_chars_of(data@.take(i as int)));
        }
    }
    proof {
        assert(data@.take(data@.len() as int) =~= data@);
    }
    string_from_ascii(codes)
}

pub fn hex_decode(s: &str) -> (r: Option<Vec<u8>>)
    ensures
        match r {
            Some(v) => hex_value_of(s@) == Some(v@),
            None => hex_value_of(s@) is None,
        },
{
    let n = s.unicode_len();
    if n % 2 != 0 {
        proof {
            lemma_hex_odd_none(s@);
        }
        return None;
    }
    let mut out: Vec<u8> = Vec::new();
    let mut i: usize = 0;
    proof {
        assert(s@.skip(0) =~= s@);
        if hex_value_of(s@) is Some {
            assert(out@ + hex_value_of(s@)->0 =~= hex_value_of(s@)->0);
        }
    }
    while i < n
        invariant
            s@.len() == n,
            n % 2 == 0,
            i % 2 == 0,
            i <= n,
            out@.len() == i / 2,
            hex_value_of(s@) is Some <==> hex_value_of(s@.skip(i as int)) is Some,
            hex_value_of(s@) is Some ==> hex_value_of(s@)->0 == out@ + hex_value_of(
                s@.skip(i as int),
            )->0,
        decreases n - i,
    {
        let c_hi = s.get_char(i);
        let c_lo = s.get_char(i + 1);
        proof {
            assert(s@.skip(i as int)[0] == s@[i as int]);
            assert(s@.skip(i as int)[1] == s@[i + 1]);
            assert(s@.skip(i as int).skip(2) =~= s@.skip(i + 2));
        }
        let hi = match nibble_value(c_hi) {
            Some(v) => v,
            None => {
                return None;
            },
        };
        let lo = match nibble_value(c_lo) {
            Some(v) => v,
            None => {
                return None;
            },
        };
        let ghost old_out = out@;
        out.push(hi * 16 + lo);
        i += 2;
        proof {
            if hex_value_of(s@) is Some {
                let t = hex_value_of(s@.skip(i as int))->0;
                assert(hex_value_of(s@)->0 == old_out + (seq![(hi * 16 + lo) as u8] + t));
                assert(old_out + (seq![(hi * 16 + lo) as u8] + t) =~= out@ + t);
            }
        }
    }
    proof {
        assert(s@.skip(n as int) =~= Seq::<char>::empty());
        if hex_value_of(s@) is Some {
            assert(out@ + hex_value_of(s@.skip(n as int))->0 =~= out@);
        }
    }
    Some(out)
}

fn nibble_value(c: char) -> (r: Option<u8>)
    ensures
        r == nibble_of_char(c),
{
    let u = c as u32;
    if 0x30 <= u && u <= 0x39 {
        Some((u - 0x30) as u8)
    } else if 0x61 <= u && u <= 0x66 {
        Some((u - 0x57) as u8)
    } else if 0x41 <= u && u <= 0x46 {
        Some((u - 0x37) as u8)
    } else {
        None
    }
}

proof fn lemma_hex_odd_none(s: Seq<char>)
    requires
        s.len() % 2 == 1,
    ensures
        hex_value_of(s) is None,
    decreases s.len(),
{
    if s.len() > 1 {
        lemma_hex_odd_none(s.skip(2));
    }
}

/// Decoding recovers exactly what was encoded.
pub proof fn lemma_hex_round_trip(data: Seq<u8>)
    ensures
        hex_value_of(hex_chars_of(data)) == Some(data),
    decreases data.len(),
{
    if data.len() == 0 {
    } else {
        let b = data.first();
        let s = hex_chars_of(data);
        assert(nibble_of_char(nibble_char(b / 16)) == Some((b / 16) as u8));
        assert(nibble_of_char(nibble_char(b % 16)) == Some((b % 16) as u8));
        lemma_hex_round_trip(data.drop_first());
        assert(s.skip(2) =~= hex_chars_of(data.drop_first()));
        assert(seq![(b / 16 * 16 + b % 16) as u8] + data.drop_first() =~= data);
    }
}

} // verus!
