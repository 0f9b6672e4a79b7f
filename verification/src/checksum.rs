//! The 40-bit polynomial checksum over 5-bit digits that guards an
//! address string, with proofs that a computed checksum verifies and that
//! any single-digit change is caught.

use vstd::prelude::*;
use crate::bits::pow2n;

verus! {

/// One step of the checksum recurrence: shift in five bits of input and
/// fold the overflowing bits back through the five generator constants.
pub open spec fn pm_step(c: u64, v: u8) -> u64 {
    (((c & 0x07_ffff_ffff) << 5) ^ (v as u64)) ^ (if (c >> 35) & 1 == 1 {
        0x98_f2bc_8e61u64
    } else {
        0u64
    }) ^ (if (c >> 36) & 1 == 1 {
        0x79_b76d_99e2u64
    } else {
        0u64
    }) ^ (if (c >> 37) & 1 == 1 {
        0xf3_3e5f_b3c4u64
    } else {
        0u64
    }) ^ (if (c >> 38) & 1 == 1 {
        0xae_2eab_e2a8u64
    } else {
        0u64
    }) ^ (if (c >> 39) & 1 == 1 {
        0x1e_4f43_e470u64
    } else {
        0u64
    })
}

/// The checksum state after folding in a sequence of values.
pub open spec fn pm(c: u64, values: Seq<u8>) -> u64
    decreases values.len(),
{
    if values.len() == 0 {
        c
    } else {
        pm(pm_step(c, values.first()), values.drop_first())
    }
}

/// The checksum of a value sequence: the folded state, starting from one,
/// with the final one flipped out.
pub open spec fn poly_mod_of(values: Seq<u8>) -> u64 {
    pm(1, values) ^ 1
}

pub open spec fn zero_values(n: nat) -> Seq<u8> {
    Seq::new(n, |i: int| 0u8)
}

/// Each prefix byte contributes its five low bits.
pub open spec fn masked(prefix: Seq<u8>) -> Seq<u8> {
    prefix.map_values(|b: u8| (b & 0x1f) as u8)
}

/// The digit sequence the checksum runs over: the masked prefix, a zero
/// separator, then the payload digits.
pub open spec fn checksum_base(prefix: Seq<u8>, payload: Seq<u8>) -> Seq<u8> {
    masked(prefix) + seq![0u8] + payload
}

/// The eight 5-bit groups of a 40-bit checksum, most significant first.
pub open spec fn checksum_digits(p: u64) -> Seq<u8> {
    Seq::new(8, |i: int| (((p as nat) / pow2n((5 * (7 - i)) as nat)) % 32) as u8)
}

pub proof fn lemma_pm_snoc(c: u64, s: Seq<u8>, v: u8)
    ensures
        pm(c, s.push(v)) == pm_step(pm(c, s), v),
    decreases s.len(),
{
    if s.len() == 0 {
        assert(s.push(v).first() == v);
        assert(s.push(v).drop_first() =~= s);
        assert(pm(pm_step(c, v), s) == pm_step(c, v));
        assert(pm(c, s) == c);
    } else {
        assert(s.push(v).drop_first() =~= s.drop_first().push(v));
        lemma_pm_snoc(pm_step(c, s.first()), s.drop_first(), v);
    }
}

pub proof fn lemma_pm_append(c: u64, a: Seq<u8>, b: Seq<u8>)
    ensures
        pm(c, a + b) == pm(pm(c, a), b),
    decreases a.len(),
{
    if a.len() == 0 {
        assert(a + b =~= b);
    } else {
        assert((a + b).first() == a.first());
        assert((a + b).drop_first() =~= a.drop_first() + b);
        lemma_pm_append(pm_step(c, a.first()), a.drop_first(), b);
    }
}

proof fn lemma_step_bound(c: u64, v: u8)
    ensures
        pm_step(c, v) < 0x100_0000_0000,
{
    assert(pm_step(c, v) < 0x100_0000_0000) by (bit_vector);
}

proof fn lemma_pm_bound(c: u64, s: Seq<u8>)
    requires
        c < 0x100_0000_0000,
    ensures
        pm(c, s) < 0x100_0000_0000,
    decreases s.len(),
{
    if s.len() > 0 {
        lemma_step_bound(c, s.first());
        lemma_pm_bound(pm_step(c, s.first()), s.drop_first());
    }
}

proof fn lemma_step_v(c: u64, v: u8)
    ensures
        pm_step(c, v) == pm_step(c, 0) ^ (v as u64),
{
    assert(pm_step(c, v) == pm_step(c, 0) ^ (v as u64)) by (bit_vector);
}

proof fn lemma_step_c(c: u64, d: u64, v: u8)
    ensures
        pm_step(c ^ d, v) == pm_step(c, v) ^ pm_step(d, 0),
{
    assert(pm_step(c ^ d, v) == pm_step(c, v) ^ pm_step(d, 0)) by (bit_vector);
}

proof fn lemma_step_inj(d: u64)
    requires
        d != 0,
        d < 0x100_0000_0000,
    ensures
        pm_step(d, 0) != 0,
{
    assert(pm_step(d, 0) != 0) by (bit_vector)
        requires
            d != 0 && d < 0x100_0000_0000,
    ;
}

proof fn lemma_step_small(d: u64)
    requires
        d < 0x8_0000_0000,
    ensures
        pm_step(d, 0) == 32 * d,
{
    assert(pm_step(d, 0) == 32 * d) by (bit_vector)
        requires
            d < 0x8_0000_0000,
    ;
}

proof fn lemma_xor_assoc(x: u64, a: u64, b: u64)
    ensures
        (x ^ a) ^ b == x ^ (a ^ b),
{
    assert((x ^ a) ^ b == x ^ (a ^ b)) by (bit_vector);
}

proof fn lemma_xor_zero(x: u64)
    ensures
        x ^ 0u64 == x,
{
    assert(x ^ 0u64 == x) by (bit_vector);
}

proof fn lemma_xor_cancel(x: u64, y: u64)
    ensures
        x ^ (x ^ y) == y,
{
    assert(x ^ (x ^ y) == y) by (bit_vector);
}

proof fn lemma_xor_one_bound(x: u64)
    requires
        x < 0x100_0000_0000,
    ensures
        x ^ 1 < 0x100_0000_0000,
{
    assert(x ^ 1 < 0x100_0000_0000) by (bit_vector)
        requires
            x < 0x100_0000_0000,
    ;
}

proof fn lemma_xor_rearrange(x: u64, a: u64, b: u64)
    ensures
        x ^ b == (x ^ a) ^ (a ^ b),
{
    assert(x ^ b == (x ^ a) ^ (a ^ b)) by (bit_vector);
}

proof fn lemma_byte_xor_nonzero(v: u8, d: u8)
    requires
        v != d,
    ensures
        (v as u64) ^ (d as u64) != 0,
        (v as u64) ^ (d as u64) < 0x100_0000_0000,
{
    assert((v as u64) ^ (d as u64) != 0 && (v as u64) ^ (d as u64) < 0x100_0000_0000)
        by (bit_vector)
        requires
            v != d,
    ;
}

proof fn lemma_xor_one_distinct(x: u64, y: u64)
    requires
        x != y,
    ensures
        x ^ 1 != y ^ 1,
{
    assert(x ^ 1 != y ^ 1) by (bit_vector)
        requires
            x != y,
    ;
}

proof fn lemma_pow2n_consts()
    ensures
        pow2n(0) == 1,
        pow2n(5) == 0x20,
        pow2n(10) == 0x400,
        pow2n(15) == 0x8000,
        pow2n(20) == 0x10_0000,
        pow2n(25) == 0x200_0000,
        pow2n(30) == 0x4000_0000,
        pow2n(35) == 0x8_0000_0000,
        pow2n(40) == 0x100_0000_0000,
{
    reveal_with_fuel(pow2n, 41);
}

/// Folding in `k` zero digits shifts an initial-state difference up by
/// five bits per digit.
proof fn lemma_pm_zeros(c: u64, d: u64, k: nat)
    requires
        k <= 7,
        (d as nat) * pow2n(5 * k) < 0x100_0000_0000,
    ensures
        pm(c ^ d, zero_values(k)) == pm(c, zero_values(k)) ^ (((d as nat) * pow2n(5 * k)) as u64),
    decreases k,
{
    lemma_pow2n_consts();
    if k == 0 {
        assert(zero_values(0) =~= Seq::<u8>::empty());
        assert((d as nat) * pow2n(0) == d);
    } else {
        assert(zero_values(k).first() == 0u8);
        assert(zero_values(k).drop_first() =~= zero_values((k - 1) as nat));
        assert(pow2n(5 * k) >= 32) by {
            crate::bits::lemma_pow2n_le(5, 5 * k);
        }
        assert(d < 0x8_0000_0000) by (nonlinear_arith)
            requires
                (d as nat) * pow2n(5 * k) < 0x100_0000_0000,
                pow2n(5 * k) >= 32,
        ;
        lemma_step_c(c, d, 0);
        lemma_step_small(d);
        let d2: u64 = (32 * d) as u64;
        assert(5 * k == 5 * (k - 1) + 5);
        assert(pow2n(5 * k) == pow2n((5 * (k - 1)) as nat) * 32) by {
            crate::bits::lemma_pow2n_add((5 * (k - 1)) as nat, 5);
        }
        assert((d2 as nat) * pow2n((5 * (k - 1)) as nat) == (d as nat) * pow2n(5 * k))
            by (nonlinear_arith)
            requires
                d2 == 32 * d,
                pow2n(5 * k) == pow2n((5 * (k - 1)) as nat) * 32,
        ;
        lemma_pm_zeros(pm_step(c, 0), d2, (k - 1) as nat);
        assert(pm(c ^ d, zero_values(k)) == pm(pm_step(c, 0) ^ d2, zero_values((k - 1) as nat)));
        assert(pm(c, zero_values(k)) == pm(pm_step(c, 0), zero_values((k - 1) as nat)));
    }
}

/// One digit of the checksum combines with the lower digits by exclusive
/// or, because their bits do not overlap.
proof fn lemma_digit_combine(p: u64, m: nat)
    requires
        m <= 7,
        p < 0x100_0000_0000,
    ensures
        ((((p as nat) / pow2n(5 * m)) % 32) * pow2n(5 * m) + (p as nat) % pow2n(5 * m)) as u64 == (
        ((((p as nat) / pow2n(5 * m)) % 32) * pow2n(5 * m)) as u64) ^ (((p as nat) % pow2n(5 * m))
            as u64),
        ((((p as nat) / pow2n(5 * m)) % 32) * pow2n(5 * m) + (p as nat) % pow2n(5 * m)) == (p
            as nat) % pow2n(5 * m + 5),
{
    lemma_pow2n_consts();
    if m == 0 {
        assert((((p / 0x1) % 32) * 0x1) as u64 == ((p / 0x1 % 32) * 0x1) as u64);
        assert(((p / 1) % 32 * 1 + p % 1) as u64 == ((p / 1 % 32 * 1) as u64) ^ ((p % 1) as u64)
            && (p / 1) % 32 * 1 + p % 1 == p % 0x20) by (bit_vector);
    } else if m == 1 {
        assert(((p / 0x20) % 32 * 0x20 + p % 0x20) as u64 == ((p / 0x20 % 32 * 0x20) as u64) ^ ((p
            % 0x20) as u64) && (p / 0x20) % 32 * 0x20 + p % 0x20 == p % 0x400) by (bit_vector);
    } else if m == 2 {
        assert(((p / 0x400) % 32 * 0x400 + p % 0x400) as u64 == ((p / 0x400 % 32 * 0x400) as u64)
            ^ ((p % 0x400) as u64) && (p / 0x400) % 32 * 0x400 + p % 0x400 == p % 0x8000)
            by (bit_vector);
    } else if m == 3 {
        assert(((p / 0x8000) % 32 * 0x8000 + p % 0x8000) as u64 == ((p / 0x8000 % 32 * 0x8000)
            as u64) ^ ((p % 0x8000) as u64) && (p / 0x8000) % 32 * 0x8000 + p % 0x8000 == p
            % 0x10_0000) by (bit_vector);
    } else if m == 4 {
        assert(((p / 0x10_0000) % 32 * 0x10_0000 + p % 0x10_0000) as u64 == ((p / 0x10_0000 % 32
            * 0x10_0000) as u64) ^ ((p % 0x10_0000) as u64) && (p / 0x10_0000) % 32 * 0x10_0000 + p
            % 0x10_0000 == p % 0x200_0000) by (bit_vector);
    } else if m == 5 {
        assert(((p / 0x200_0000) % 32 * 0x200_0000 + p % 0x200_0000) as u64 == ((p / 0x200_0000
            % 32 * 0x200_0000) as u64) ^ ((p % 0x200_0000) as u64) && (p / 0x200_0000) % 32
            * 0x200_0000 + p % 0x200_0000 == p % 0x4000_0000) by (bit_vector);
    } else if m == 6 {
        assert(((p / 0x4000_0000) % 32 * 0x4000_0000 + p % 0x4000_0000) as u64 == ((p / 0x4000_0000
            % 32 * 0x4000_0000) as u64) ^ ((p % 0x4000_0000) as u64) && (p / 0x4000_0000) % 32
            * 0x4000_0000 + p % 0x4000_0000 == p % 0x8_0000_0000) by (bit_vector);
    } else {
        assert(((p / 0x8_0000_0000) % 32 * 0x8_0000_0000 + p % 0x8_0000_0000) as u64 == ((p
            / 0x8_0000_0000 % 32 * 0x8_0000_0000) as u64) ^ ((p % 0x8_0000_0000) as u64) && (p
            / 0x8_0000_0000) % 32 * 0x8_0000_0000 + p % 0x8_0000_0000 == p % 0x100_0000_0000)
            by (bit_vector)
            requires
                p < 0x100_0000_0000,
        ;
    }
}

/// Folding in the eight digits of `p` lands on the same state as folding
/// in eight zeros and then flipping in `p`.
proof fn lemma_pm_digits(c: u64, p: u64, j: int)
    requires
        0 <= j <= 8,
        p < 0x100_0000_0000,
    ensures
        pm(c, checksum_digits(p).skip(j)) == pm(c, zero_values((8 - j) as nat)) ^ (((p as nat)
            % pow2n((5 * (8 - j)) as nat)) as u64),
    decreases 8 - j,
{
    lemma_pow2n_consts();
    if j == 8 {
        assert(checksum_digits(p).skip(8) =~= Seq::<u8>::empty());
        assert(zero_values(0) =~= Seq::<u8>::empty());
        assert((p as nat) % pow2n(0) == 0) by (nonlinear_arith)
            requires
                pow2n(0) == 1,
        ;
        lemma_xor_zero(c);
    } else {
        let m = (7 - j) as nat;
        let digits = checksum_digits(p);
        let dj = digits[j];
        assert(digits.skip(j).first() == dj);
        assert(digits.skip(j).drop_first() =~= digits.skip(j + 1));
        assert(zero_values((8 - j) as nat).first() == 0u8);
        assert(zero_values((8 - j) as nat).drop_first() =~= zero_values((7 - j) as nat));
        lemma_step_v(c, dj);
        lemma_pm_digits(pm_step(c, 0) ^ (dj as u64), p, j + 1);
        assert((dj as nat) == ((p as nat) / pow2n(5 * m)) % 32);
        assert((dj as nat) * pow2n(5 * m) < 0x100_0000_0000) by {
            assert(pow2n(5 * m + 5) <= pow2n(40)) by {
                crate::bits::lemma_pow2n_le(5 * m + 5, 40);
            }
            assert((dj as nat) * pow2n(5 * m) < 32 * pow2n(5 * m)) by (nonlinear_arith)
                requires
                    (dj as nat) < 32,
                    pow2n(5 * m) >= 1,
            ;
            assert(32 * pow2n(5 * m) == pow2n(5 * m + 5)) by {
                crate::bits::lemma_pow2n_add(5 * m, 5);
            }
        }
        lemma_pm_zeros(pm_step(c, 0), dj as u64, m);
        lemma_digit_combine(p, m);
        let a = (((dj as nat) * pow2n(5 * m)) as u64);
        let b = (((p as nat) % pow2n(5 * m)) as u64);
        lemma_xor_assoc(pm(c, zero_values((8 - j) as nat)), a, b);
        assert(a ^ b == (((p as nat) % pow2n(5 * m + 5)) as u64));
        assert(pm(c, digits.skip(j)) == pm(pm_step(c, 0) ^ (dj as u64), digits.skip(j + 1)));
        assert(pm(c, zero_values((8 - j) as nat)) == pm(pm_step(c, 0), zero_values(
            (7 - j) as nat,
        )));
    }
}

/// A checksum computed over a base with eight stuffed zeros verifies when
/// its eight digits replace those zeros.
pub proof fn lemma_checksum_verifies(vs: Seq<u8>)
    ensures
        poly_mod_of(vs + checksum_digits(poly_mod_of(vs + zero_values(8)))) == 0,
{
    lemma_pow2n_consts();
    let c1 = pm(1, vs);
    lemma_pm_append(1, vs, zero_values(8));
    let cc = pm(c1, zero_values(8));
    assert(cc < 0x100_0000_0000) by {
        lemma_pm_bound(1, vs + zero_values(8));
    }
    let p = cc ^ 1;
    lemma_xor_one_bound(cc);
    lemma_pm_append(1, vs, checksum_digits(p));
    lemma_pm_digits(c1, p, 0);
    assert(checksum_digits(p).skip(0) =~= checksum_digits(p));
    assert((p as nat) % pow2n(40) == p) by (nonlinear_arith)
        requires
            p < 0x100_0000_0000,
            pow2n(40) == 0x100_0000_0000,
    ;
    lemma_xor_cancel(cc, 1);
    assert((1u64 ^ 1u64) == 0u64) by (bit_vector);
}

/// A one-position difference in the input never cancels out of the
/// folded state.
proof fn lemma_pm_flip(c: u64, e: u64, s: Seq<u8>)
    requires
        e != 0,
        e < 0x100_0000_0000,
    ensures
        pm(c ^ e, s) != pm(c, s),
    decreases s.len(),
{
    if s.len() == 0 {
        assert(c ^ e != c) by (bit_vector)
            requires
                e != 0,
        ;
    } else {
        let v = s.first();
        lemma_step_c(c, e, v);
        let e2 = pm_step(e, 0);
        lemma_step_inj(e);
        lemma_step_bound(e, 0);
        lemma_pm_flip(pm_step(c, v), e2, s.drop_first());
        assert(pm_step(c, v) ^ e2 == pm_step(c ^ e, v));
    }
}

/// Changing any single digit of the input changes the checksum.
pub proof fn lemma_checksum_detects_flip(values: Seq<u8>, i: int, d: u8)
    requires
        0 <= i < values.len(),
        d != values[i],
    ensures
        poly_mod_of(values.update(i, d)) != poly_mod_of(values),
{
    let v = values[i];
    let pre = values.take(i);
    let suf = values.skip(i + 1);
    let updated = values.update(i, d);
    assert(values =~= pre + seq![v] + suf);
    assert(updated =~= pre + seq![d] + suf);
    let cp = pm(1, pre);
    lemma_pm_append(1, pre + seq![v], suf);
    lemma_pm_append(1, pre, seq![v]);
    lemma_pm_append(1, pre + seq![d], suf);
    lemma_pm_append(1, pre, seq![d]);
    assert(seq![v].drop_first() =~= Seq::<u8>::empty());
    assert(seq![d].drop_first() =~= Seq::<u8>::empty());
    assert(pm(pm_step(cp, v), Seq::<u8>::empty()) == pm_step(cp, v));
    assert(pm(pm_step(cp, d), Seq::<u8>::empty()) == pm_step(cp, d));
    assert(pm(cp, seq![v]) == pm_step(cp, v));
    assert(pm(cp, seq![d]) == pm_step(cp, d));
    lemma_step_v(cp, v);
    lemma_step_v(cp, d);
    let e: u64 = (v as u64) ^ (d as u64);
    lemma_xor_rearrange(pm_step(cp, 0), v as u64, d as u64);
    assert(pm_step(cp, d) == pm_step(cp, v) ^ e);
    lemma_byte_xor_nonzero(v, d);
    lemma_pm_flip(pm_step(cp, v), e, suf);
    let x = pm(1, values);
    let y = pm(1, updated);
    assert(x != y);
    lemma_xor_one_distinct(x, y);
}

/// Folds the checksum over a value sequence.
pub fn poly_mod(values: &[u8]) -> (r: u64)
    ensures
        r == poly_mod_of(values@),
{
    let mut c: u64 = 1;
    let mut i: usize = 0;
    proof {
        assert(values@.take(0) =~= Seq::<u8>::empty());
    }
    while i < values.len()
        invariant
            i <= values@.len(),
            c == pm(1, values@.take(i as int)),
        decreases values@.len() - i,
    {
        let v = values[i];
        c = (((c & 0x07_ffff_ffff) << 5) ^ (v as u64)) ^ (if (c >> 35) & 1 == 1 {
            0x98_f2bc_8e61u64
        } else {
            0u64
        }) ^ (if (c >> 36) & 1 == 1 {
            0x79_b76d_99e2u64
        } else {
            0u64
        }) ^ (if (c >> 37) & 1 == 1 {
            0xf3_3e5f_b3c4u64
        } else {
            0u64
        }) ^ (if (c >> 38) & 1 == 1 {
            0xae_2eab_e2a8u64
        } else {
            0u64
        }) ^ (if (c >> 39) & 1 == 1 {
            0x1e_4f43_e470u64
        } else {
            0u64
        });
        i += 1;
        proof {
            lemma_pm_snoc(1, values@.take(i - 1), values@[i - 1]);
            assert(values@.take(i as int) =~= values@.take(i - 1).push(values@[i - 1]));
        }
    }
    proof {
        assert(values@.take(values@.len() as int) =~= values@);
    }
    c ^ 1
}

/// Builds the digit sequence the checksum runs over.
fn build_checksum_base(prefix: &[u8], payload: &[u8], stuff_zeros: bool) -> (r: Vec<u8>)
    ensures
        r@ == checksum_base(prefix@, payload@) + (if stuff_zeros {
            zero_values(8)
        } else {
            Seq::<u8>::empty()
        }),
{
    let mut vs: Vec<u8> = Vec::new();
    let mut i: usize = 0;
    while i < prefix.len()
        invariant
            i <= prefix@.len(),
            vs@ =~= masked(prefix@.take(i as int)),
        decreases prefix@.len() - i,
    {
        vs.push(prefix[i] & 0x1f);
        i += 1;
        assert(vs@ =~= masked(prefix@.take(i as int)));
    }
    proof {
        assert(prefix@.take(prefix@.len() as int) =~= prefix@);
    }
    vs.push(0);
    let mut j: usize = 0;
    while j < payload.len()
        invariant
            j <= payload@.len(),
            vs@ =~= masked(prefix@) + seq![0u8] + payload@.take(j as int),
        decreases payload@.len() - j,
    {
        vs.push(payload[j]);
        j += 1;
        assert(vs@ =~= masked(prefix@) + seq![0u8] + payload@.take(j as int));
    }
    proof {
        assert(payload@.take(payload@.len() as int) =~= payload@);
    }
    if stuff_zeros {
        let mut k: usize = 0;
        while k < 8
            invariant
                k <= 8,
                vs@ =~= checksum_base(prefix@, payload@) + zero_values(k as nat),
            decreases 8 - k,
        {
            vs.push(0);
            k += 1;
            assert(vs@ =~= checksum_base(prefix@, payload@) + zero_values(k as nat));
        }
    } else {
        assert(vs@ =~= checksum_base(prefix@, payload@) + Seq::<u8>::empty());
    }
    vs
}

/// The eight checksum digits for a prefix and payload.
pub fn calculate_checksum(prefix: &[u8], payload: &[u8]) -> (r: Vec<u8>)
    ensures
        r@ == checksum_digits(poly_mod_of(checksum_base(prefix@, payload@) + zero_values(8))),
        forall|i: int| 0 <= i < r@.len() ==> r@[i] < 32,
{
    let vs = build_checksum_base(prefix, payload, true);
    let p = poly_mod(vs.as_slice());
    let mut digits: Vec<u8> = Vec::new();
    digits.push(((p / 0x8_0000_0000) % 32) as u8);
    digits.push(((p / 0x4000_0000) % 32) as u8);
    digits.push(((p / 0x200_0000) % 32) as u8);
    digits.push(((p / 0x10_0000) % 32) as u8);
    digits.push(((p / 0x8000) % 32) as u8);
    digits.push(((p / 0x400) % 32) as u8);
    digits.push(((p / 0x20) % 32) as u8);
    digits.push((p % 32) as u8);
    proof {
        lemma_pow2n_consts();
        assert(checksum_digits(p)[0] == ((p / 0x8_0000_0000) % 32) as u8);
        assert(checksum_digits(p)[1] == ((p / 0x4000_0000) % 32) as u8);
        assert(checksum_digits(p)[2] == ((p / 0x200_0000) % 32) as u8);
        assert(checksum_digits(p)[3] == ((p / 0x10_0000) % 32) as u8);
        assert(checksum_digits(p)[4] == ((p / 0x8000) % 32) as u8);
        assert(checksum_digits(p)[5] == ((p / 0x400) % 32) as u8);
        assert(checksum_digits(p)[6] == ((p / 0x20) % 32) as u8);
        assert(checksum_digits(p)[7] == ((p / 0x1) % 32) as u8);
        assert(digits@ =~= checksum_digits(p));
    }
    digits
}

/// Whether the checksum over prefix and payload (the payload carrying its
/// own checksum digits) folds to zero.
pub fn verify_checksum(prefix: &[u8], payload: &[u8]) -> (r: bool)
    ensures
        r == (poly_mod_of(checksum_base(prefix@, payload@)) == 0),
{
    let vs = build_checksum_base(prefix, payload, false);
    proof {
        assert(vs@ =~= checksum_base(prefix@, payload@));
    }
    poly_mod(vs.as_slice()) == 0
}

} // verus!
