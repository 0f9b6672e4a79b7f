//! ASCII bytes and the strings they spell.

use vstd::prelude::*;

verus! {

/// Every byte is an ASCII code.
pub open spec fn all_ascii(s: Seq<u8>) -> bool {
    forall|i: int| 0 <= i < s.len() ==> s[i] < 0x80
}

/// The characters spelled by a sequence of ASCII codes.
pub open spec fn ascii_chars(s: Seq<u8>) -> Seq<char> {
    Seq::new(s.len(), |i: int| s[i] as char)
}

/// Relies on std's `String::from_utf8`: ASCII bytes are valid UTF-8 and
/// decode to exactly those characters.
#[verifier::external_body]
pub fn string_from_ascii(bytes: Vec<u8>) -> (r: String)
    requires
        all_ascii(bytes@),
    ensures
        r@ == ascii_chars(bytes@),
{
    String::from_utf8(bytes).unwrap()
}

/// The ASCII lowercase of a byte: letters `A` to `Z` map down, all else is
/// unchanged.
pub open spec fn lower_byte(b: u8) -> u8 {
    if 0x41 <= b <= 0x5a {
        (b + 0x20) as u8
    } else {
        b
    }
}

/// The bytewise ASCII lowercase of a byte string.
pub open spec fn lower_bytes(s: Seq<u8>) -> Seq<u8> {
    s.map_values(|b: u8| lower_byte(b))
}

pub fn to_ascii_lowercase_bytes(data: &[u8]) -> (r: Vec<u8>)
    ensures
        r@ == lower_bytes(data@),
{
    let mut out: Vec<u8> = Vec::new();
    let mut i: usize = 0;
    while i < data.len()
        invariant
            i <= data@.len(),
            out@ =~= lower_bytes(data@.take(i as int)),
        decreases data@.len() - i,
    {
        let b = data[i];
        if 0x41 <= b && b <= 0x5a {
            out.push(b + 0x20);
        } else {
            out.push(b);
        }
        i += 1;
        assert(out@ =~= lower_bytes(data@.take(i as int)));
    }
    assert(data@.take(data@.len() as int) =~= data@);
    out
}

} // verus!
