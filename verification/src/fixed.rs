//! Small exact-arithmetic helpers shared by the projection and the
//! viewport state machine: Euclidean wrapping, clamping, and truncating
//! division on wide integers.

use vstd::prelude::*;
use vstd::arithmetic::div_mod::{
    lemma_fundamental_div_mod, lemma_fundamental_div_mod_converse, lemma_mod_bound,
};

verus! {

/// Euclidean remainder of `s` modulo `n` (always in `[0, n)`), computed
/// through unsigned division.
pub fn wrap_mod_i128(s: i128, n: u64) -> (r: u64)
    requires
        n > 0,
        -0x7fff_ffff_ffff_ffff_ffff_ffff < s < 0x7fff_ffff_ffff_ffff_ffff_ffff,
    ensures
        r == s as int % n as int,
        r < n,
{
    let nn = n as u128;
    if s >= 0 {
        let m = (s as u128) % nn;
        proof {
            lemma_mod_bound(s as int, n as int);
        }
        m as u64
    } else {
        let a = (-s) as u128;
        let m = a % nn;
        let r: u64 = if m == 0 {
            0
        } else {
            n - (m as u64)
        };
        proof {
            let q = a as int / n as int;
            lemma_fundamental_div_mod(a as int, n as int);
            lemma_mod_bound(a as int, n as int);
            if m == 0 {
                assert(s as int == (-q) * (n as int) + 0) by (nonlinear_arith)
                    requires
                        s as int == -(a as int),
                        a as int == (n as int) * q + 0,
                ;
                lemma_fundamental_div_mod_converse(s as int, n as int, -q, 0);
            } else {
                assert(s as int == (-q - 1) * (n as int) + ((n as int) - (m as int)))
                    by (nonlinear_arith)
                    requires
                        s as int == -(a as int),
                        a as int == (n as int) * q + (m as int),
                ;
                lemma_fundamental_div_mod_converse(s as int, n as int, -q - 1, n - m as int);
            }
        }
        r
    }
}

/// Clamps `s` into `[lo, hi]`.
pub fn clamp_i128_to_u64(s: i128, lo: u64, hi: u64) -> (r: u64)
    requires
        lo <= hi,
    ensures
        r == spec_clamp(s as int, lo as int, hi as int),
{
    if s < lo as i128 {
        lo
    } else if s > hi as i128 {
        hi
    } else {
        s as u64
    }
}

/// `v` clamped into `[lo, hi]`.
pub open spec fn spec_clamp(v: int, lo: int, hi: int) -> int {
    if v < lo {
        lo
    } else if v > hi {
        hi
    } else {
        v
    }
}

/// Division truncating toward zero (the sign behaviour of hardware
/// division), as a spec over Euclidean division of magnitudes.
pub open spec fn spec_div_trunc(a: int, b: int) -> int
    recommends
        b > 0,
{
    if a >= 0 {
        a / b
    } else {
        -((-a) / b)
    }
}

/// Division of `a` by positive `b`, truncating toward zero.
pub fn div_trunc(a: i128, b: u64) -> (r: i128)
    requires
        b > 0,
        -0x7fff_ffff_ffff_ffff_ffff_ffff < a < 0x7fff_ffff_ffff_ffff_ffff_ffff,
    ensures
        r == spec_div_trunc(a as int, b as int),
{
    proof {
        if a >= 0 {
            vstd::arithmetic::div_mod::lemma_div_pos_is_pos(a as int, b as int);
            vstd::arithmetic::div_mod::lemma_div_is_ordered_by_denominator(a as int, 1, b as int);
            vstd::arithmetic::div_mod::lemma_div_basics(a as int);
        } else {
            vstd::arithmetic::div_mod::lemma_div_pos_is_pos(-a as int, b as int);
            vstd::arithmetic::div_mod::lemma_div_is_ordered_by_denominator(-a as int, 1, b as int);
            vstd::arithmetic::div_mod::lemma_div_basics(-a as int);
        }
    }
    if a >= 0 {
        ((a as u128) / (b as u128)) as i128
    } else {
        -((((-a) as u128) / (b as u128)) as i128)
    }
}

} // verus!
