//! Regrouping a stream of small bit-groups into groups of another width:
//! the address payload is carried as 5-bit digits of an underlying byte
//! string.

use vstd::prelude::*;

verus! {

pub open spec fn pow2n(w: nat) -> nat
    decreases w,
{
    if w == 0 {
        1nat
    } else {
        2 * pow2n((w - 1) as nat)
    }
}

/// The `w` low bits of a value, most significant first.
pub open spec fn bits_of_value(v: u8, w: nat) -> Seq<bool>
    decreases w,
{
    if w == 0 {
        Seq::empty()
    } else {
        bits_of_value(v / 2, (w - 1) as nat).push(v % 2 == 1)
    }
}

/// The value spelled by a bit string, most significant first.
pub open spec fn value_of_bits(b: Seq<bool>) -> nat
    decreases b.len(),
{
    if b.len() == 0 {
        0nat
    } else {
        2 * value_of_bits(b.drop_last()) + (if b.last() {
            1nat
        } else {
            0nat
        })
    }
}

pub open spec fn zero_bits(n: nat) -> Seq<bool> {
    Seq::new(n, |i: int| false)
}

/// The bit stream of a sequence of `w`-bit groups.
pub open spec fn stream_bits(data: Seq<u8>, w: nat) -> Seq<bool>
    decreases data.len(),
{
    if data.len() == 0 {
        Seq::empty()
    } else {
        bits_of_value(data.first(), w) + stream_bits(data.drop_first(), w)
    }
}

/// A bit stream regrouped into `w`-bit groups, the last group padded with
/// zero bits on the right.
pub open spec fn pack_bits(b: Seq<bool>, w: nat) -> Seq<u8>
    decreases b.len() when w >= 1
{
    if b.len() == 0 {
        Seq::empty()
    } else if b.len() >= w {
        seq![value_of_bits(b.take(w as int)) as u8] + pack_bits(b.skip(w as int), w)
    } else {
        seq![value_of_bits(b + zero_bits((w - b.len()) as nat)) as u8]
    }
}

/// The number of zero bits that padding appends to a stream of length `n`.
pub open spec fn pad_len(n: nat, w: nat) -> nat {
    if n % w == 0 {
        0nat
    } else {
        (w - n % w) as nat
    }
}

/// Every group value fits in `w` bits.
pub open spec fn all_below(data: Seq<u8>, w: nat) -> bool {
    forall|i: int| 0 <= i < data.len() ==> data[i] < pow2n(w)
}

pub proof fn lemma_value_of_bits_of_value(v: u8, w: nat)
    requires
        v < pow2n(w),
    ensures
        bits_of_value(v, w).len() == w,
        value_of_bits(bits_of_value(v, w)) == v,
    decreases w,
{
    if w > 0 {
        lemma_value_of_bits_of_value(v / 2, (w - 1) as nat);
        let b = bits_of_value(v, w);
        assert(b.drop_last() =~= bits_of_value(v / 2, (w - 1) as nat));
    }
}

pub proof fn lemma_bits_of_value_len(v: u8, w: nat)
    ensures
        bits_of_value(v, w).len() == w,
    decreases w,
{
    if w > 0 {
        lemma_bits_of_value_len(v / 2, (w - 1) as nat);
    }
}

pub proof fn lemma_value_of_bits_bound(b: Seq<bool>)
    ensures
        value_of_bits(b) < pow2n(b.len()),
    decreases b.len(),
{
    if b.len() > 0 {
        lemma_value_of_bits_bound(b.drop_last());
    }
}

pub proof fn lemma_bits_of_value_of_bits(b: Seq<bool>)
    requires
        b.len() <= 8,
    ensures
        value_of_bits(b) < pow2n(b.len()),
        bits_of_value(value_of_bits(b) as u8, b.len()) == b,
    decreases b.len(),
{
    lemma_value_of_bits_bound(b);
    if b.len() > 0 {
        let x = b.drop_last();
        lemma_bits_of_value_of_bits(x);
        let vx = value_of_bits(x);
        let v = value_of_bits(b);
        assert(pow2n(b.len()) <= 0x100) by {
            lemma_pow2n_le(b.len(), 8);
            lemma_pow2n_8();
        }
        assert(v == 2 * vx + (if b.last() {
            1nat
        } else {
            0nat
        }));
        assert((v as u8) / 2 == vx as u8);
        assert((v as u8) % 2 == (if b.last() {
            1u8
        } else {
            0u8
        }));
        assert(bits_of_value(v as u8, b.len()) =~= b);
    } else {
        assert(bits_of_value(0u8, 0) =~= b);
    }
}

pub proof fn lemma_pow2n_8()
    ensures
        pow2n(5) == 32,
        pow2n(7) == 128,
        pow2n(8) == 256,
{
    reveal_with_fuel(pow2n, 9);
}

pub proof fn lemma_pow2n_le(a: nat, b: nat)
    requires
        a <= b,
    ensures
        pow2n(a) <= pow2n(b),
        pow2n(a) >= 1,
    decreases b,
{
    if b > 0 {
        if a == b {
            lemma_pow2n_le((a - 1) as nat, (b - 1) as nat);
        } else {
            lemma_pow2n_le(a, (b - 1) as nat);
        }
    }
}

/// Padding with zero bits multiplies the value by the padded power of two.
pub proof fn lemma_value_of_padded(b: Seq<bool>, k: nat)
    ensures
        value_of_bits(b + zero_bits(k)) == value_of_bits(b) * pow2n(k),
    decreases k,
{
    if k == 0 {
        assert(b + zero_bits(0) =~= b);
        assert(pow2n(0) == 1);
        assert(value_of_bits(b) * pow2n(k) == value_of_bits(b)) by (nonlinear_arith)
            requires
                pow2n(k) == 1,
        ;
    } else {
        let shorter = b + zero_bits((k - 1) as nat);
        assert((b + zero_bits(k)).drop_last() =~= shorter);
        assert((b + zero_bits(k)).last() == false);
        lemma_value_of_padded(b, (k - 1) as nat);
        assert(value_of_bits(b + zero_bits(k)) == 2 * (value_of_bits(b) * pow2n((k - 1) as nat)));
        assert(2 * (value_of_bits(b) * pow2n((k - 1) as nat)) == value_of_bits(b) * (2 * pow2n(
            (k - 1) as nat,
        ))) by (nonlinear_arith);
        assert(pow2n(k) == 2 * pow2n((k - 1) as nat));
        assert(value_of_bits(b + zero_bits(k)) == value_of_bits(b) * pow2n(k));
    }
}

/// Packing then streaming returns the bits with the zero padding appended.
pub proof fn lemma_stream_pack(b: Seq<bool>, w: nat)
    requires
        1 <= w <= 8,
    ensures
        stream_bits(pack_bits(b, w), w) == b + zero_bits(pad_len(b.len(), w)),
    decreases b.len(),
{
    if b.len() == 0 {
        assert(b.len() % w == 0) by (nonlinear_arith)
            requires
                w >= 1 && b.len() == 0,
        ;
        assert(stream_bits(pack_bits(b, w), w) =~= b + zero_bits(pad_len(b.len(), w)));
    } else if b.len() < w {
        let padded = b + zero_bits((w - b.len()) as nat);
        assert(padded.len() == w);
        lemma_bits_of_value_of_bits(padded);
        lemma_pow2n_le(w, 8);
        lemma_pow2n_8();
        let v = value_of_bits(padded) as u8;
        assert(pack_bits(b, w) == seq![v]);
        assert(seq![v].drop_first() =~= Seq::<u8>::empty());
        assert(stream_bits(Seq::<u8>::empty(), w) == Seq::<bool>::empty());
        assert(seq![v].first() == v);
        assert(stream_bits(pack_bits(b, w), w) =~= bits_of_value(v, w));
        lemma_mod_small(b.len(), w);
        assert(pad_len(b.len(), w) == w - b.len());
        assert(stream_bits(pack_bits(b, w), w) =~= b + zero_bits(pad_len(b.len(), w)));
    } else {
        let head = b.take(w as int);
        let tail = b.skip(w as int);
        lemma_bits_of_value_of_bits(head);
        lemma_pow2n_le(w, 8);
        lemma_pow2n_8();
        let v = value_of_bits(head) as u8;
        lemma_stream_pack(tail, w);
        assert((seq![v] + pack_bits(tail, w)).first() == v);
        assert((seq![v] + pack_bits(tail, w)).drop_first() =~= pack_bits(tail, w));
        assert(tail.len() % w == b.len() % w) by {
            assert(tail.len() + w == b.len());
            lemma_mod_plus(tail.len(), w);
        }
        assert(stream_bits(pack_bits(b, w), w) =~= b + zero_bits(pad_len(b.len(), w)));
    }
}

proof fn lemma_mod_small(n: nat, w: nat)
    requires
        n < w,
    ensures
        n % w == n,
{
    assert(n % w == n) by (nonlinear_arith)
        requires
            0 <= n < w,
    ;
}

proof fn lemma_mod_plus(n: nat, w: nat)
    requires
        w >= 1,
    ensures
        (n + w) % w == n % w,
{
    assert((n + w) % w == n % w) by (nonlinear_arith)
        requires
            w >= 1,
    ;
}

/// Streaming then packing returns the original groups when every value
/// fits its width.
pub proof fn lemma_pack_stream(data: Seq<u8>, w: nat)
    requires
        1 <= w <= 8,
        all_below(data, w),
    ensures
        stream_bits(data, w).len() == data.len() * w,
        pack_bits(stream_bits(data, w), w) == data,
    decreases data.len(),
{
    if data.len() == 0 {
        assert(pack_bits(stream_bits(data, w), w) =~= data);
    } else {
        let first = data.first();
        let rest = data.drop_first();
        let fb = bits_of_value(first, w);
        lemma_value_of_bits_of_value(first, w);
        lemma_pow2n_le(w, 8);
        lemma_pow2n_8();
        lemma_pack_stream(rest, w);
        let s = stream_bits(data, w);
        assert(s == fb + stream_bits(rest, w));
        assert(s.len() == w + rest.len() * w);
        assert(data.len() * w == w + rest.len() * w) by (nonlinear_arith)
            requires
                data.len() >= 1,
                rest.len() == data.len() - 1,
        ;
        assert(s.take(w as int) =~= fb);
        assert(s.skip(w as int) =~= stream_bits(rest, w));
        assert(pack_bits(s, w) == seq![first] + pack_bits(stream_bits(rest, w), w));
        assert(pack_bits(s, w) =~= data);
    }
}

/// Packing distributes over concatenation at a group boundary.
pub proof fn lemma_pack_append(a: Seq<bool>, b: Seq<bool>, w: nat)
    requires
        1 <= w <= 8,
        a.len() % w == 0,
    ensures
        pack_bits(a + b, w) == pack_bits(a, w) + pack_bits(b, w),
    decreases a.len(),
{
    if a.len() == 0 {
        assert(a + b =~= b);
        assert(pack_bits(a, w) + pack_bits(b, w) =~= pack_bits(b, w));
    } else {
        assert(a.len() >= w) by {
            if a.len() < w {
                assert(a.len() % w == a.len()) by (nonlinear_arith)
                    requires
                        0 < a.len() < w,
                ;
            }
        }
        assert((a + b).len() >= w);
        assert((a + b).take(w as int) =~= a.take(w as int));
        assert((a + b).skip(w as int) =~= a.skip(w as int) + b);
        assert(a.skip(w as int).len() % w == 0) by {
            lemma_mod_plus(a.skip(w as int).len(), w);
        }
        lemma_pack_append(a.skip(w as int), b, w);
        assert(pack_bits(a + b, w) =~= pack_bits(a, w) + pack_bits(b, w));
    }
}

pub proof fn lemma_value_of_zero_bits(n: nat)
    ensures
        value_of_bits(zero_bits(n)) == 0,
    decreases n,
{
    if n > 0 {
        assert(zero_bits(n).drop_last() =~= zero_bits((n - 1) as nat));
        lemma_value_of_zero_bits((n - 1) as nat);
    }
}

/// Every packed group value fits in `w` bits.
pub proof fn lemma_pack_bits_below(b: Seq<bool>, w: nat)
    requires
        1 <= w <= 8,
    ensures
        all_below(pack_bits(b, w), w),
    decreases b.len(),
{
    lemma_pow2n_le(w, 8);
    if b.len() == 0 {
    } else if b.len() >= w {
        lemma_value_of_bits_bound(b.take(w as int));
        lemma_pow2n_8();
        lemma_pack_bits_below(b.skip(w as int), w);
        assert forall|i: int| 0 <= i < pack_bits(b, w).len() implies pack_bits(b, w)[i] < pow2n(
            w,
        ) by {
            if i > 0 {
                assert(pack_bits(b, w)[i] == pack_bits(b.skip(w as int), w)[i - 1]);
            }
        }
    } else {
        lemma_value_of_bits_bound(b + zero_bits((w - b.len()) as nat));
    }
}

/// Repacking eight-bit groups through five-bit groups and back appends at
/// most one zero byte, and nothing else.
pub proof fn lemma_bit_repack_round_trip(x: Seq<u8>)
    ensures
        pack_bits(stream_bits(pack_bits(stream_bits(x, 8), 5), 5), 8) == x + (if (x.len() * 8) % 5
            == 0 {
            Seq::<u8>::empty()
        } else {
            seq![0u8]
        }),
{
    let xb = stream_bits(x, 8);
    assert(all_below(x, 8)) by {
        lemma_pow2n_8();
    }
    lemma_pack_stream(x, 8);
    let y = pack_bits(xb, 5);
    lemma_stream_pack(xb, 5);
    let r = pad_len(xb.len(), 5);
    assert(stream_bits(y, 5) == xb + zero_bits(r));
    assert(xb.len() % 8 == 0) by {
        lemma_mul_mod(x.len(), 8);
    }
    lemma_pack_append(xb, zero_bits(r), 8);
    assert(pack_bits(stream_bits(y, 5), 8) == pack_bits(xb, 8) + pack_bits(zero_bits(r), 8));
    assert(pack_bits(xb, 8) == x);
    assert(r < 5) by {
        assert(xb.len() % 5 < 5) by (nonlinear_arith);
    }
    if r == 0 {
        assert(pack_bits(zero_bits(0), 8) =~= Seq::<u8>::empty());
        assert((x.len() * 8) % 5 == 0);
        assert(pack_bits(stream_bits(y, 5), 8) =~= x + Seq::<u8>::empty());
    } else {
        assert(zero_bits(r).len() < 8);
        lemma_value_of_zero_bits(r);
        lemma_value_of_padded(zero_bits(r), (8 - r) as nat);
        assert(value_of_bits(zero_bits(r) + zero_bits((8 - r) as nat)) == 0);
        assert(pack_bits(zero_bits(r), 8) =~= seq![0u8]);
        assert((x.len() * 8) % 5 != 0);
        assert(pack_bits(stream_bits(y, 5), 8) =~= x + seq![0u8]);
    }
}

proof fn lemma_mul_mod(n: nat, w: nat)
    requires
        w >= 1,
    ensures
        (n * w) % w == 0,
{
    assert((n * w) % w == 0) by (nonlinear_arith)
        requires
            w >= 1,
    ;
}


pub proof fn lemma_pow2n_add(a: nat, b: nat)
    ensures
        pow2n(a + b) == pow2n(a) * pow2n(b),
    decreases a,
{
    if a == 0 {
    } else {
        lemma_pow2n_add((a - 1) as nat, b);
        assert(2 * (pow2n((a - 1) as nat) * pow2n(b)) == (2 * pow2n((a - 1) as nat)) * pow2n(b))
            by (nonlinear_arith);
        assert((a - 1) as nat + b == (a + b - 1) as nat);
    }
}

proof fn lemma_stream_bits_push(s: Seq<u8>, v: u8, w: nat)
    ensures
        stream_bits(s.push(v), w) == stream_bits(s, w) + bits_of_value(v, w),
    decreases s.len(),
{
    if s.len() == 0 {
        assert(s.push(v).drop_first() =~= s);
        assert(stream_bits(s.push(v), w) =~= stream_bits(s, w) + bits_of_value(v, w));
    } else {
        assert(s.push(v).drop_first() =~= s.drop_first().push(v));
        lemma_stream_bits_push(s.drop_first(), v, w);
        assert(stream_bits(s.push(v), w) =~= stream_bits(s, w) + bits_of_value(v, w));
    }
}

fn pow2_u16(w: u32) -> (r: u16)
    requires
        w <= 8,
    ensures
        r == pow2n(w as nat),
{
    proof {
        reveal_with_fuel(pow2n, 9);
    }
    match w {
        0 => 1,
        1 => 2,
        2 => 4,
        3 => 8,
        4 => 16,
        5 => 32,
        6 => 64,
        7 => 128,
        _ => 256,
    }
}

fn push_bits(bits: &mut Vec<bool>, v: u8, w: u32)
    requires
        w <= 8,
    ensures
        final(bits)@ == old(bits)@ + bits_of_value(v, w as nat),
    decreases w,
{
    if w == 0 {
        assert(bits@ =~= old(bits)@ + bits_of_value(v, 0));
    } else {
        push_bits(bits, v / 2, w - 1);
        bits.push(v % 2 == 1);
        assert(bits@ =~= old(bits)@ + bits_of_value(v, w as nat));
    }
}

fn bits_value(bits: &Vec<bool>, start: usize, w: usize) -> (r: u8)
    requires
        start + w <= bits@.len(),
        w <= 8,
    ensures
        r == value_of_bits(bits@.subrange(start as int, (start + w) as int)),
        r < pow2n(w as nat),
{
    let n = bits.len();
    let mut acc: u16 = 0;
    let mut j: usize = 0;
    proof {
        assert(bits@.subrange(start as int, start as int) =~= Seq::<bool>::empty());
        lemma_pow2n_8();
    }
    while j < w
        invariant
            start + w <= bits@.len(),
            bits@.len() == n,
            w <= 8,
            j <= w,
            acc == value_of_bits(bits@.subrange(start as int, (start + j) as int)),
            acc < pow2n(j as nat),
        decreases w - j,
    {
        proof {
            lemma_pow2n_le(j as nat, 7);
            lemma_pow2n_8();
            assert(bits@.subrange(start as int, (start + j + 1) as int).drop_last()
                =~= bits@.subrange(start as int, (start + j) as int));
        }
        acc = acc * 2 + (if bits[start + j] {
            1
        } else {
            0
        });
        j += 1;
    }
    proof {
        lemma_pow2n_le(w as nat, 8);
        lemma_pow2n_8();
    }
    acc as u8
}

/// The trailing `rem` bits are all zero.
pub open spec fn tail_zero(bits: Seq<bool>, rem: nat) -> bool {
    forall|i: int| bits.len() - rem <= i < bits.len() ==> !bits[i]
}

/// Regroups a stream of `from_bits`-bit values into `to_bits`-bit values.
/// With `pad`, trailing bits are left-padded with zeros into a last group;
/// without, a remainder of `from_bits` or more bits, or any nonzero
/// trailing bit, is an error, and the trailing zero bits are dropped.
#[verifier::loop_isolation(false)]
pub fn convert_bits(data: &[u8], from_bits: u32, to_bits: u32, pad: bool) -> (r: Option<Vec<u8>>)
    requires
        1 <= from_bits <= 8,
        1 <= to_bits <= 8,
    ensures
        r is Some <==> all_below(data@, from_bits as nat) && (pad || {
            let bits = stream_bits(data@, from_bits as nat);
            let rem = bits.len() % (to_bits as nat);
            rem < from_bits as nat && tail_zero(bits, rem)
        }),
        r is Some ==> {
            let bits = stream_bits(data@, from_bits as nat);
            let rem = bits.len() % (to_bits as nat);
            if pad {
                r->0@ == pack_bits(bits, to_bits as nat)
            } else {
                r->0@ == pack_bits(bits.take((bits.len() - rem) as int), to_bits as nat)
            }
        },
{
    let ghost fb = from_bits as nat;
    let ghost tb = to_bits as nat;
    let limit: u16 = pow2_u16(from_bits);
    let mut bits: Vec<bool> = Vec::new();
    let mut i: usize = 0;
    proof {
        assert(data@.take(0) =~= Seq::<u8>::empty());
    }
    while i < data.len()
        invariant
            1 <= from_bits <= 8,
            limit == pow2n(fb),
            fb == from_bits as nat,
            i <= data@.len(),
            all_below(data@.take(i as int), fb),
            bits@ == stream_bits(data@.take(i as int), fb),
        decreases data@.len() - i,
    {
        let v = data[i];
        if v as u16 >= limit {
            proof {
                assert(!all_below(data@, fb)) by {
                    assert(data@[i as int] >= pow2n(fb));
                }
            }
            return None;
        }
        push_bits(&mut bits, v, from_bits);
        i += 1;
        proof {
            assert(data@.take(i as int) =~= data@.take(i - 1).push(data@[i - 1]));
            lemma_stream_bits_push(data@.take(i - 1), data@[i - 1], fb);
        }
    }
    proof {
        assert(data@.take(data@.len() as int) =~= data@);
    }
    let total: usize = bits.len();
    let tow: usize = to_bits as usize;
    let mut out: Vec<u8> = Vec::new();
    let mut at: usize = 0;
    proof {
        assert(bits@.take(0) =~= Seq::<bool>::empty());
        assert(0nat % tb == 0) by (nonlinear_arith)
            requires
                tb >= 1,
        ;
    }
    while tow <= total - at
        invariant
            1 <= to_bits <= 8,
            tb == to_bits as nat,
            tow == to_bits as usize,
            total == bits@.len(),
            at <= total,
            at as nat % tb == 0,
            out@ == pack_bits(bits@.take(at as int), tb),
        decreases total - at,
    {
        let v = bits_value(&bits, at, tow);
        out.push(v);
        proof {
            let a = bits@.take(at as int);
            let g = bits@.subrange(at as int, (at + tow) as int);
            assert(bits@.take((at + tow) as int) =~= a + g);
            lemma_pack_append(a, g, tb);
            assert(g.take(tb as int) =~= g);
            assert(g.skip(tb as int) =~= Seq::<bool>::empty());
            assert(pack_bits(Seq::<bool>::empty(), tb) == Seq::<u8>::empty());
            assert(pack_bits(g, tb) =~= seq![value_of_bits(g) as u8]);
            assert(out@ =~= pack_bits(bits@.take((at + tow) as int), tb));
            lemma_mod_plus(at as nat, tb);
        }
        at += tow;
    }
    let rem: usize = total - at;
    proof {
        assert(rem < tow);
        assert(total as nat % tb == rem as nat) by (nonlinear_arith)
            requires
                tb >= 1,
                at as nat % tb == 0,
                rem == total - at,
                0 <= rem < tb,
        ;
    }
    if pad {
        if rem > 0 {
            let raw = bits_value(&bits, at, rem);
            let shift = pow2_u16(to_bits - rem as u32);
            proof {
                lemma_pow2n_add((rem) as nat, (tb - rem) as nat);
                lemma_pow2n_le(tb, 8);
                lemma_pow2n_le((tb - rem) as nat, 8);
                lemma_pow2n_8();
                assert((raw as nat) * pow2n((tb - rem) as nat) < pow2n(rem as nat) * pow2n(
                    (tb - rem) as nat,
                )) by (nonlinear_arith)
                    requires
                        raw < pow2n(rem as nat),
                        pow2n((tb - rem) as nat) >= 1,
                ;
            }
            let v = raw as u16 * shift;
            proof {
                let g = bits@.subrange(at as int, total as int);
                assert(bits@.take(at as int) + g =~= bits@);
                lemma_pack_append(bits@.take(at as int), g, tb);
                lemma_value_of_padded(g, (tb - rem) as nat);
                assert(pack_bits(g, tb) == seq![value_of_bits(g + zero_bits((tb - rem) as nat)) as u8]);
            }
            out.push(v as u8);
            proof {
                assert(out@ =~= pack_bits(bits@, tb));
            }
        } else {
            proof {
                assert(bits@.take(at as int) =~= bits@);
            }
        }
        Some(out)
    } else {
        if rem as u32 >= from_bits {
            return None;
        }
        let mut j: usize = at;
        while j < total
            invariant
                total == bits@.len(),
                at <= j <= total,
                forall|k: int| at <= k < j ==> !bits@[k],
            decreases total - j,
        {
            if bits[j] {
                proof {
                    assert(!tail_zero(bits@, rem as nat)) by {
                        assert(bits@[j as int]);
                    }
                }
                return None;
            }
            j += 1;
        }
        proof {
            assert(bits@.take((total - rem) as int) =~= bits@.take(at as int));
        }
        Some(out)
    }
}


/// Streaming distributes over concatenation.
pub proof fn lemma_stream_bits_append(a: Seq<u8>, b: Seq<u8>, w: nat)
    ensures
        stream_bits(a + b, w) == stream_bits(a, w) + stream_bits(b, w),
    decreases a.len(),
{
    if a.len() == 0 {
        assert(a + b =~= b);
        assert(stream_bits(a, w) + stream_bits(b, w) =~= stream_bits(b, w));
    } else {
        assert((a + b).first() == a.first());
        assert((a + b).drop_first() =~= a.drop_first() + b);
        lemma_stream_bits_append(a.drop_first(), b, w);
        assert(stream_bits(a + b, w) =~= stream_bits(a, w) + stream_bits(b, w));
    }
}

/// The number of groups a stream packs into.
pub proof fn lemma_pack_bits_len(b: Seq<bool>, w: nat)
    requires
        w >= 1,
    ensures
        pack_bits(b, w).len() == (b.len() + w - 1) / (w as int),
    decreases b.len(),
{
    if b.len() == 0 {
        assert((0 + w - 1) / (w as int) == 0) by (nonlinear_arith)
            requires
                w >= 1,
        ;
    } else if b.len() < w {
        assert((b.len() + w - 1) / (w as int) == 1) by (nonlinear_arith)
            requires
                w >= 1 && 0 < b.len() < w,
        ;
    } else {
        lemma_pack_bits_len(b.skip(w as int), w);
        assert((b.len() - w + w - 1) / (w as int) + 1 == (b.len() + w - 1) / (w as int))
            by (nonlinear_arith)
            requires
                w >= 1 && b.len() >= w,
        ;
    }
}

} // verus!
