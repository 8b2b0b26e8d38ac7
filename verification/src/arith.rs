//! Integer helpers behind residual quantization: powers of two, bit
//! lengths, and division that rounds toward negative infinity.

use vstd::arithmetic::div_mod::{
    lemma_fundamental_div_mod,
    lemma_fundamental_div_mod_converse,
};
use vstd::arithmetic::power2::{
    lemma2_to64,
    lemma2_to64_rest,
    lemma_pow2_pos,
    lemma_pow2_strictly_increases,
    lemma_pow2_unfold,
    pow2,
};
use vstd::prelude::*;

verus! {

/// Powers of two up to `2^63` fit in 64 bits.
pub proof fn lemma_pow2_fits_u64(e: nat)
    requires
        e <= 63,
    ensures
        0 < pow2(e) <= 0x8000_0000_0000_0000,
{
    lemma2_to64_rest();
    lemma_pow2_pos(e);
    if e < 63 {
        lemma_pow2_strictly_increases(e, 63);
    }
}

/// `2^e` for an exponent of at most 63.
pub fn pow2_u64(e: u32) -> (r: u64)
    requires
        e <= 63,
    ensures
        r == pow2(e as nat),
{
    let mut r: u64 = 1;
    let mut i: u32 = 0;
    proof {
        lemma2_to64();
    }
    while i < e
        invariant
            i <= e <= 63,
            r == pow2(i as nat),
        decreases e - i,
    {
        proof {
            lemma_pow2_unfold((i + 1) as nat);
            lemma_pow2_fits_u64((i + 1) as nat);
        }
        r = r * 2;
        i = i + 1;
    }
    r
}

/// The number of binary digits of `v`: the least `n` with `v < 2^n`.
pub open spec fn spec_bit_length(v: nat) -> nat
    decreases v,
{
    if v == 0 {
        0
    } else {
        1 + spec_bit_length(v / 2)
    }
}

/// `v` needs exactly `spec_bit_length(v)` binary digits.
pub proof fn lemma_bit_length(v: nat)
    ensures
        v < pow2(spec_bit_length(v)),
        v > 0 ==> pow2((spec_bit_length(v) - 1) as nat) <= v,
    decreases v,
{
    lemma2_to64();
    if v > 0 {
        lemma_bit_length(v / 2);
        lemma_pow2_unfold(spec_bit_length(v));
        if v / 2 > 0 {
            lemma_pow2_unfold((spec_bit_length(v) - 1) as nat);
        }
    }
}

/// A value below `2^n` has at most `n` binary digits.
pub proof fn lemma_bit_length_bound(v: nat, n: nat)
    requires
        v < pow2(n),
    ensures
        spec_bit_length(v) <= n,
{
    lemma_bit_length(v);
    if v > 0 && spec_bit_length(v) > n {
        let b = (spec_bit_length(v) - 1) as nat;
        if n < b {
            lemma_pow2_strictly_increases(n, b);
        }
    }
}

/// The number of binary digits of `v`.
pub fn bit_length(v: u64) -> (r: u32)
    ensures
        r == spec_bit_length(v as nat),
        r <= 64,
{
    let mut n: u32 = 0;
    let mut x: u64 = v;
    proof {
        lemma2_to64();
        lemma_bit_length_bound(v as nat, 64);
    }
    while x > 0
        invariant
            n + spec_bit_length(x as nat) == spec_bit_length(v as nat),
            spec_bit_length(v as nat) <= 64,
        decreases x,
    {
        x = x / 2;
        n = n + 1;
    }
    n
}

/// `x` divided by `2^s`, rounded toward negative infinity.
pub open spec fn spec_floor_div_pow2(x: int, s: nat) -> int {
    x / (pow2(s) as int)
}

/// Floor division loses less than the divisor.
pub proof fn lemma_floor_div_pow2(x: int, s: nat)
    ensures
        spec_floor_div_pow2(x, s) * pow2(s) <= x < spec_floor_div_pow2(x, s) * pow2(s) + pow2(s),
{
    lemma_pow2_pos(s);
    let p = pow2(s) as int;
    lemma_fundamental_div_mod(x, p);
    assert(p * (x / p) == (x / p) * p) by (nonlinear_arith);
}

/// `x` divided by `2^s`, rounded toward negative infinity (an arithmetic
/// right shift by `s`).
pub fn floor_div_pow2(x: i64, s: u32) -> (r: i64)
    requires
        s <= 62,
    ensures
        r == spec_floor_div_pow2(x as int, s as nat),
{
    let p: u64 = pow2_u64(s);
    proof {
        lemma_pow2_pos(s as nat);
        lemma_pow2_fits_u64(s as nat);
        lemma_pow2_strictly_increases(s as nat, 63);
        lemma2_to64_rest();
    }
    if x >= 0 {
        let q: u64 = (x as u64) / p;
        q as i64
    } else {
        let n: u64 = (-(x + 1)) as u64;
        let a: u64 = n / p;
        let b: u64 = n % p;
        proof {
            lemma_fundamental_div_mod(n as int, p as int);
            assert(p * (-(a as int) - 1) + (p - b - 1) == -(p * a + b) - 1) by (nonlinear_arith);
            lemma_fundamental_div_mod_converse(
                x as int,
                p as int,
                -(a as int) - 1,
                p as int - b as int - 1,
            );
        }
        -(a as i64) - 1
    }
}

/// `q * 2^s` where the product fits in 64 signed bits (a left shift by
/// `s`).
pub fn mul_pow2(q: i16, s: u32) -> (r: i64)
    requires
        s <= 48,
    ensures
        r == q * pow2(s as nat),
{
    let p: u64 = pow2_u64(s);
    proof {
        lemma2_to64_rest();
        lemma_pow2_pos(s as nat);
        if s < 48 {
            lemma_pow2_strictly_increases(s as nat, 48);
        }
        assert(-32768 * 0x1_0000_0000_0000 <= q * p <= 32767 * 0x1_0000_0000_0000)
            by (nonlinear_arith)
            requires
                -32768 <= q <= 32767,
                0 < p <= 0x1_0000_0000_0000,
        ;
    }
    (q as i64) * (p as i64)
}

/// Absolute value as a natural number.
pub open spec fn spec_abs(x: int) -> nat {
    if x < 0 {
        (-x) as nat
    } else {
        x as nat
    }
}


/// An array that agrees with `s` below index `k`.
proof fn array_prefix<T: Copy, const N: usize>(s: Seq<T>, k: nat) -> (a: [T; N])
    requires
        s.len() == N,
        k <= N,
    ensures
        forall|i: int| 0 <= i < k ==> a@[i] == s[i],
    decreases k,
{
    if k == 0 {
        vstd::array::spec_array_fill_for_copy_type::<T, N>(arbitrary())
    } else {
        let prev = array_prefix::<T, N>(s, (k - 1) as nat);
        let a = vstd::array::spec_array_update(prev, k - 1, s[k - 1]);
        vstd::array::axiom_spec_array_update(prev, k - 1, s[k - 1]);
        a
    }
}

/// Every sequence of the length of an array is the content of an array.
pub proof fn lemma_array_from_seq<T: Copy, const N: usize>(s: Seq<T>) -> (a: [T; N])
    requires
        s.len() == N,
    ensures
        a@ == s,
{
    let a = array_prefix::<T, N>(s, N as nat);
    assert(a@ =~= s);
    a
}

} // verus!
