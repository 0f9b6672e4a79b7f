//! Little-endian and big-endian integer encodings, the variable-length
//! integer, and the length-prefixed byte string that underlie every wire
//! format of this crate.

use vstd::prelude::*;

verus! {

/// The two little-endian bytes of a 16-bit integer.
pub open spec fn u16_le_bytes(n: u16) -> Seq<u8> {
    seq![(n % 0x100) as u8, ((n / 0x100) % 0x100) as u8]
}

/// The four little-endian bytes of a 32-bit integer.
pub open spec fn u32_le_bytes(n: u32) -> Seq<u8> {
    seq![
        (n % 0x100) as u8,
        ((n / 0x100) % 0x100) as u8,
        ((n / 0x1_0000) % 0x100) as u8,
        ((n / 0x100_0000) % 0x100) as u8,
    ]
}

/// The eight little-endian bytes of a 64-bit integer.
pub open spec fn u64_le_bytes(n: u64) -> Seq<u8> {
    seq![
        (n % 0x100) as u8,
        ((n / 0x100) % 0x100) as u8,
        ((n / 0x1_0000) % 0x100) as u8,
        ((n / 0x100_0000) % 0x100) as u8,
        ((n / 0x1_0000_0000) % 0x100) as u8,
        ((n / 0x100_0000_0000) % 0x100) as u8,
        ((n / 0x1_0000_0000_0000) % 0x100) as u8,
        ((n / 0x100_0000_0000_0000) % 0x100) as u8,
    ]
}

/// The eight big-endian bytes of a 64-bit integer.
pub open spec fn u64_be_bytes(n: u64) -> Seq<u8> {
    u64_le_bytes(n).reverse()
}

/// The four big-endian bytes of a 32-bit integer.
pub open spec fn u32_be_bytes(n: u32) -> Seq<u8> {
    u32_le_bytes(n).reverse()
}

/// The two's-complement reinterpretation of a signed 32-bit integer.
pub open spec fn i32_as_u32(n: i32) -> u32 {
    if n >= 0 {
        n as u32
    } else {
        (n + 0x1_0000_0000) as u32
    }
}

/// The four little-endian bytes of a signed 32-bit integer.
pub open spec fn i32_le_bytes(n: i32) -> Seq<u8> {
    u32_le_bytes(i32_as_u32(n))
}

/// The two's-complement reinterpretation of a signed 64-bit integer.
pub open spec fn i64_as_u64(n: i64) -> u64 {
    if n >= 0 {
        n as u64
    } else {
        (n + 0x1_0000_0000_0000_0000) as u64
    }
}

/// The eight little-endian bytes of a signed 64-bit integer.
pub open spec fn i64_le_bytes(n: i64) -> Seq<u8> {
    u64_le_bytes(i64_as_u64(n))
}

/// The signed 32-bit value read back from four little-endian bytes.
pub open spec fn i32_of_le(s: Seq<u8>) -> i32
    recommends
        s.len() == 4,
{
    if u32_of_le(s) < 0x8000_0000 {
        u32_of_le(s) as i32
    } else {
        (u32_of_le(s) - 0x1_0000_0000) as i32
    }
}

/// The signed 64-bit value read back from eight little-endian bytes.
pub open spec fn i64_of_le(s: Seq<u8>) -> i64
    recommends
        s.len() == 8,
{
    if u64_of_le(s) < 0x8000_0000_0000_0000 {
        u64_of_le(s) as i64
    } else {
        (u64_of_le(s) - 0x1_0000_0000_0000_0000) as i64
    }
}

/// The variable-length integer: one byte below `0xfd`, else a marker byte
/// followed by the little-endian 16-, 32- or 64-bit value.
pub open spec fn var_int_bytes(n: u64) -> Seq<u8> {
    if n < 0xfd {
        seq![n as u8]
    } else if n <= 0xffff {
        seq![0xfdu8] + u16_le_bytes(n as u16)
    } else if n <= 0xffff_ffff {
        seq![0xfeu8] + u32_le_bytes(n as u32)
    } else {
        seq![0xffu8] + u64_le_bytes(n)
    }
}

/// A byte string prefixed with its length as a variable-length integer.
pub open spec fn var_str_bytes(s: Seq<u8>) -> Seq<u8> {
    var_int_bytes(s.len() as u64) + s
}

/// The 16-bit value read back from two little-endian bytes.
pub open spec fn u16_of_le(s: Seq<u8>) -> u16
    recommends
        s.len() == 2,
{
    (s[0] + s[1] * 0x100) as u16
}

/// The 32-bit value read back from four little-endian bytes.
pub open spec fn u32_of_le(s: Seq<u8>) -> u32
    recommends
        s.len() == 4,
{
    (s[0] + s[1] * 0x100 + s[2] * 0x1_0000 + s[3] * 0x100_0000) as u32
}

/// The 64-bit value read back from eight little-endian bytes.
pub open spec fn u64_of_le(s: Seq<u8>) -> u64
    recommends
        s.len() == 8,
{
    (s[0] + s[1] * 0x100 + s[2] * 0x1_0000 + s[3] * 0x100_0000 + s[4] * 0x1_0000_0000
        + s[5] * 0x100_0000_0000 + s[6] * 0x1_0000_0000_0000 + s[7] * 0x100_0000_0000_0000) as u64
}

/// The 32-bit value read back from four big-endian bytes.
pub open spec fn u32_of_be(s: Seq<u8>) -> u32
    recommends
        s.len() == 4,
{
    u32_of_le(s.reverse())
}

/// The 64-bit value read back from eight big-endian bytes.
pub open spec fn u64_of_be(s: Seq<u8>) -> u64
    recommends
        s.len() == 8,
{
    u64_of_le(s.reverse())
}

/// Reads a 32-bit big-endian value from four bytes.
pub fn read_u32_be(data: &[u8]) -> (r: u32)
    requires
        data@.len() == 4,
    ensures
        r == u32_of_be(data@),
{
    let v: u64 = data[3] as u64 + data[2] as u64 * 0x100 + data[1] as u64 * 0x1_0000 + data[0]
        as u64 * 0x100_0000;
    proof {
        assert(data@.reverse() =~= seq![data@[3], data@[2], data@[1], data@[0]]);
    }
    v as u32
}

/// Reads a 64-bit big-endian value from eight bytes.
pub fn read_u64_be(data: &[u8]) -> (r: u64)
    requires
        data@.len() == 8,
    ensures
        r == u64_of_be(data@),
{
    let v: u64 = data[7] as u64 + data[6] as u64 * 0x100 + data[5] as u64 * 0x1_0000 + data[4]
        as u64 * 0x100_0000 + data[3] as u64 * 0x1_0000_0000 + data[2] as u64 * 0x100_0000_0000
        + data[1] as u64 * 0x1_0000_0000_0000 + data[0] as u64 * 0x100_0000_0000_0000;
    proof {
        assert(data@.reverse() =~= seq![
            data@[7],
            data@[6],
            data@[5],
            data@[4],
            data@[3],
            data@[2],
            data@[1],
            data@[0],
        ]);
    }
    v
}

/// The variable-length-integer decoder: the value and the number of bytes
/// consumed, or `None` when the input is too short.
pub open spec fn var_int_value(s: Seq<u8>) -> Option<(u64, int)> {
    if s.len() == 0 {
        None
    } else if s[0] < 0xfd {
        Some((s[0] as u64, 1))
    } else if s[0] == 0xfd {
        if s.len() >= 3 {
            Some((u16_of_le(s.subrange(1, 3)) as u64, 3))
        } else {
            None
        }
    } else if s[0] == 0xfe {
        if s.len() >= 5 {
            Some((u32_of_le(s.subrange(1, 5)) as u64, 5))
        } else {
            None
        }
    } else {
        if s.len() >= 9 {
            Some((u64_of_le(s.subrange(1, 9)), 9))
        } else {
            None
        }
    }
}

pub fn write_u16_le(out: &mut Vec<u8>, n: u16)
    ensures
        final(out)@ == old(out)@ + u16_le_bytes(n),
{
    out.push((n % 0x100) as u8);
    out.push((n / 0x100) as u8);
    assert(out@ =~= old(out)@ + u16_le_bytes(n));
}

pub fn write_u32_le(out: &mut Vec<u8>, n: u32)
    ensures
        final(out)@ == old(out)@ + u32_le_bytes(n),
{
    out.push((n % 0x100) as u8);
    out.push(((n / 0x100) % 0x100) as u8);
    out.push(((n / 0x1_0000) % 0x100) as u8);
    out.push((n / 0x100_0000) as u8);
    assert(out@ =~= old(out)@ + u32_le_bytes(n));
}

pub fn write_u64_le(out: &mut Vec<u8>, n: u64)
    ensures
        final(out)@ == old(out)@ + u64_le_bytes(n),
{
    out.push((n % 0x100) as u8);
    out.push(((n / 0x100) % 0x100) as u8);
    out.push(((n / 0x1_0000) % 0x100) as u8);
    out.push(((n / 0x100_0000) % 0x100) as u8);
    out.push(((n / 0x1_0000_0000) % 0x100) as u8);
    out.push(((n / 0x100_0000_0000) % 0x100) as u8);
    out.push(((n / 0x1_0000_0000_0000) % 0x100) as u8);
    out.push((n / 0x100_0000_0000_0000) as u8);
    assert(out@ =~= old(out)@ + u64_le_bytes(n));
}

pub fn write_u32_be(out: &mut Vec<u8>, n: u32)
    ensures
        final(out)@ == old(out)@ + u32_be_bytes(n),
{
    out.push((n / 0x100_0000) as u8);
    out.push(((n / 0x1_0000) % 0x100) as u8);
    out.push(((n / 0x100) % 0x100) as u8);
    out.push((n % 0x100) as u8);
    assert(out@ =~= old(out)@ + u32_be_bytes(n));
}

pub fn write_u64_be(out: &mut Vec<u8>, n: u64)
    ensures
        final(out)@ == old(out)@ + u64_be_bytes(n),
{
    out.push((n / 0x100_0000_0000_0000) as u8);
    out.push(((n / 0x1_0000_0000_0000) % 0x100) as u8);
    out.push(((n / 0x100_0000_0000) % 0x100) as u8);
    out.push(((n / 0x1_0000_0000) % 0x100) as u8);
    out.push(((n / 0x100_0000) % 0x100) as u8);
    out.push(((n / 0x1_0000) % 0x100) as u8);
    out.push(((n / 0x100) % 0x100) as u8);
    out.push((n % 0x100) as u8);
    assert(out@ =~= old(out)@ + u64_be_bytes(n));
}

pub fn write_i32_le(out: &mut Vec<u8>, n: i32)
    ensures
        final(out)@ == old(out)@ + i32_le_bytes(n),
{
    let wide: i64 = n as i64;
    let u: u32 = if wide >= 0 {
        wide as u32
    } else {
        (wide + 0x1_0000_0000) as u32
    };
    assert(u == i32_as_u32(n));
    write_u32_le(out, u);
}

pub fn write_i64_le(out: &mut Vec<u8>, n: i64)
    ensures
        final(out)@ == old(out)@ + i64_le_bytes(n),
{
    let wide: i128 = n as i128;
    let u: u64 = if wide >= 0 {
        wide as u64
    } else {
        (wide + 0x1_0000_0000_0000_0000) as u64
    };
    assert(u == i64_as_u64(n));
    write_u64_le(out, u);
}

pub fn write_var_int(out: &mut Vec<u8>, n: u64)
    ensures
        final(out)@ == old(out)@ + var_int_bytes(n),
{
    if n < 0xfd {
        out.push(n as u8);
        assert(out@ =~= old(out)@ + var_int_bytes(n));
    } else if n <= 0xffff {
        out.push(0xfd);
        write_u16_le(out, n as u16);
        assert(out@ =~= old(out)@ + var_int_bytes(n));
    } else if n <= 0xffff_ffff {
        out.push(0xfe);
        write_u32_le(out, n as u32);
        assert(out@ =~= old(out)@ + var_int_bytes(n));
    } else {
        out.push(0xff);
        write_u64_le(out, n);
        assert(out@ =~= old(out)@ + var_int_bytes(n));
    }
}

pub fn write_var_str(out: &mut Vec<u8>, string: &[u8])
    ensures
        final(out)@ == old(out)@ + var_str_bytes(string@),
{
    write_var_int(out, string.len() as u64);
    out.extend_from_slice(string);
    assert(out@ =~= old(out)@ + var_str_bytes(string@));
}

/// Reads a variable-length integer at `pos`, returning the value and the
/// position just past it.
pub fn read_var_int(data: &[u8], pos: usize) -> (r: Option<(u64, usize)>)
    requires
        pos <= data@.len(),
    ensures
        match r {
            Some((v, end)) => {
                &&& pos < end <= data@.len()
                &&& var_int_value(data@.skip(pos as int)) == Some((v, end - pos))
            },
            None => var_int_value(data@.skip(pos as int)) is None,
        },
{
    let n: usize = data.len();
    if n - pos < 1 {
        return None;
    }
    let first: u8 = data[pos];
    if first < 0xfd {
        Some((first as u64, pos + 1))
    } else if first == 0xfd {
        if n - pos < 3 {
            return None;
        }
        let v: u64 = data[pos + 1] as u64 + data[pos + 2] as u64 * 0x100;
        assert(data@.skip(pos as int).subrange(1, 3) =~= seq![
            data@[pos + 1],
            data@[pos + 2],
        ]);
        Some((v, pos + 3))
    } else if first == 0xfe {
        if n - pos < 5 {
            return None;
        }
        let v: u64 = data[pos + 1] as u64 + data[pos + 2] as u64 * 0x100 + data[pos + 3] as u64
            * 0x1_0000 + data[pos + 4] as u64 * 0x100_0000;
        assert(data@.skip(pos as int).subrange(1, 5) =~= seq![
            data@[pos + 1],
            data@[pos + 2],
            data@[pos + 3],
            data@[pos + 4],
        ]);
        Some((v, pos + 5))
    } else {
        if n - pos < 9 {
            return None;
        }
        let v: u64 = data[pos + 1] as u64 + data[pos + 2] as u64 * 0x100 + data[pos + 3] as u64
            * 0x1_0000 + data[pos + 4] as u64 * 0x100_0000 + data[pos + 5] as u64 * 0x1_0000_0000
            + data[pos + 6] as u64 * 0x100_0000_0000 + data[pos + 7] as u64 * 0x1_0000_0000_0000
            + data[pos + 8] as u64 * 0x100_0000_0000_0000;
        assert(data@.skip(pos as int).subrange(1, 9) =~= seq![
            data@[pos + 1],
            data@[pos + 2],
            data@[pos + 3],
            data@[pos + 4],
            data@[pos + 5],
            data@[pos + 6],
            data@[pos + 7],
            data@[pos + 8],
        ]);
        Some((v, pos + 9))
    }
}

/// The length-prefixed byte-string decoder: the contents and the number of
/// bytes consumed, or `None` when the input is too short.
pub open spec fn var_str_value(s: Seq<u8>) -> Option<(Seq<u8>, int)> {
    match var_int_value(s) {
        Some((n, used)) => if used + n <= s.len() {
            Some((s.subrange(used, used + n), used + n))
        } else {
            None
        },
        None => None,
    }
}

/// Reads a length-prefixed byte string at `pos`, returning the bytes and the
/// position just past them.
pub fn read_var_str(data: &[u8], pos: usize) -> (r: Option<(Vec<u8>, usize)>)
    requires
        pos <= data@.len(),
    ensures
        match r {
            Some((s, end)) => {
                &&& pos < end <= data@.len()
                &&& var_str_value(data@.skip(pos as int)) == Some((s@, end - pos))
            },
            None => var_str_value(data@.skip(pos as int)) is None,
        },
{
    let (len, mut at) = match read_var_int(data, pos) {
        Some(p) => p,
        None => {
            return None;
        },
    };
    let ghost header_end = at as int;
    if ((data.len() - at) as u64) < len {
        return None;
    }
    let count: usize = len as usize;
    let mut s: Vec<u8> = Vec::new();
    let start: usize = at;
    let end: usize = start + count;
    while at < end
        invariant
            end <= data@.len(),
            start <= at <= end,
            s@ =~= data@.subrange(start as int, at as int),
        decreases end - at,
    {
        s.push(data[at]);
        at += 1;
        assert(s@ =~= data@.subrange(start as int, at as int));
    }
    proof {
        assert(data@.skip(pos as int).subrange(header_end - pos, at - pos) =~= data@.subrange(
            start as int,
            at as int,
        ));
    }
    Some((s, at))
}

/// Whatever follows an encoded byte string, decoding returns the same bytes
/// and stops right after them.
pub proof fn lemma_var_str_round_trip(x: Seq<u8>, rest: Seq<u8>)
    requires
        x.len() <= u64::MAX,
    ensures
        var_str_value(var_str_bytes(x) + rest) == Some((x, var_str_bytes(x).len() as int)),
{
    let s = var_str_bytes(x) + rest;
    let header = var_int_bytes(x.len() as u64);
    assert(s =~= header + (x + rest));
    lemma_var_int_round_trip(x.len() as u64, x + rest);
    let used = header.len() as int;
    assert(s.subrange(used, used + x.len()) =~= x);
}

/// The decoder consumes exactly the encoder's bytes: whatever follows an
/// encoded integer, decoding returns the same value and stops right after it.
pub proof fn lemma_var_int_round_trip(n: u64, rest: Seq<u8>)
    ensures
        var_int_value(var_int_bytes(n) + rest) == Some((n, var_int_bytes(n).len() as int)),
{
    let s = var_int_bytes(n) + rest;
    if n < 0xfd {
        assert(s[0] == n as u8);
    } else if n <= 0xffff {
        assert(s.subrange(1, 3) =~= u16_le_bytes(n as u16));
        assert(u16_of_le(u16_le_bytes(n as u16)) == n as u16);
    } else if n <= 0xffff_ffff {
        assert(s.subrange(1, 5) =~= u32_le_bytes(n as u32));
        assert(u32_of_le(u32_le_bytes(n as u32)) == n as u32) by {
            lemma_u32_le_round_trip(n as u32);
        }
    } else {
        assert(s.subrange(1, 9) =~= u64_le_bytes(n));
        assert(u64_of_le(u64_le_bytes(n)) == n) by {
            lemma_u64_le_round_trip(n);
        }
    }
}

proof fn lemma_u32_le_round_trip(n: u32)
    ensures
        u32_of_le(u32_le_bytes(n)) == n,
{
}

proof fn lemma_u64_le_round_trip(n: u64)
    ensures
        u64_of_le(u64_le_bytes(n)) == n,
{
    assert(n % 0x100 + (n / 0x100 % 0x100) * 0x100 + (n / 0x1_0000 % 0x100) * 0x1_0000 + (n
        / 0x100_0000 % 0x100) * 0x100_0000 + (n / 0x1_0000_0000 % 0x100) * 0x1_0000_0000 + (n
        / 0x100_0000_0000 % 0x100) * 0x100_0000_0000 + (n / 0x1_0000_0000_0000 % 0x100)
        * 0x1_0000_0000_0000 + (n / 0x100_0000_0000_0000 % 0x100) * 0x100_0000_0000_0000 == n)
        by (bit_vector);
}


/// Copies `count` bytes starting at `start` into a fresh vector.
pub fn read_bytes(data: &[u8], start: usize, count: usize) -> (r: Vec<u8>)
    requires
        start + count <= data@.len(),
    ensures
        r@ == data@.subrange(start as int, start + count),
{
    let n = data.len();
    let mut s: Vec<u8> = Vec::new();
    let end = start + count;
    let mut at = start;
    proof {
        assert(end <= n);
    }
    proof {
        assert(s@ =~= data@.subrange(start as int, start as int));
    }
    while at < end
        invariant
            end <= data@.len(),
            start <= at <= end,
            s@ =~= data@.subrange(start as int, at as int),
        decreases end - at,
    {
        s.push(data[at]);
        at += 1;
        assert(s@ =~= data@.subrange(start as int, at as int));
    }
    s
}

} // verus!
