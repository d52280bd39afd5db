//! Generalized nibble-granularity long division (Knuth's normalized
//! multi-precision algorithm at base 16) and the 32-bit division built on
//! it.

use vstd::prelude::*;
use crate::errors::DivisionByZero;
use crate::int32::{lemma_mod32, Int32};
use crate::nibbles::{nibbles, pow16, val16};
use crate::nibbles::{
    lemma_pow16_adds,
    lemma_pow16_pos,
    lemma_pow16_values,
    lemma_val16_pair,
    lemma_val16_bounds,
    lemma_val16_high_zero,
    lemma_val16_skip_div,
    lemma_val16_skip_succ,
    lemma_val16_split,
    lemma_val16_take_succ,
    lemma_val16_update,
    lemma_val16_zero,
};

verus! {

/// 2 raised to a shift amount in `0 ..= 4`.
pub open spec fn pshift(sft: int) -> int {
    if sft <= 0 {
        1
    } else if sft == 1 {
        2
    } else if sft == 2 {
        4
    } else if sft == 3 {
        8
    } else {
        16
    }
}

/// Arithmetic (sign-preserving) right shift: floor division by a power of
/// two, computed without dividing a negative number.
fn shift_arith_right(n: i16, sft: i16) -> (r: i16)
    requires
        0 <= sft <= 4,
        -2048 <= n <= 2047,
    ensures
        r == n as int / pshift(sft as int),
{
    if sft == 0 {
        n
    } else if sft == 1 {
        (n + 2048) / 2 - 1024
    } else if sft == 2 {
        (n + 2048) / 4 - 512
    } else if sft == 3 {
        (n + 2048) / 8 - 256
    } else {
        (n + 2048) / 16 - 128
    }
}

/// Left shift by a small amount: multiplication by a power of two.
fn shift_arith_left(n: i16, sft: i16) -> (r: i16)
    requires
        0 <= sft <= 4,
        0 <= n < 16,
    ensures
        r == n * pshift(sft as int),
{
    if sft == 0 {
        n
    } else if sft == 1 {
        n * 2
    } else if sft == 2 {
        n * 4
    } else if sft == 3 {
        n * 8
    } else {
        n * 16
    }
}

/// Number of leading zero bits of a 16-bit value. The long division uses it
/// on a nonzero nibble, where it sits in `12 ..= 15`.
fn nlz(n: i16) -> (r: i16)
    requires
        n >= 0,
    ensures
        n == 0 ==> r == 16,
        1 <= n < 2 ==> r == 15,
        2 <= n < 4 ==> r == 14,
        4 <= n < 8 ==> r == 13,
        8 <= n < 16 ==> r == 12,
        0 <= r <= 16,
{
    if n == 0 {
        16
    } else if n < 2 {
        15
    } else if n < 4 {
        14
    } else if n < 8 {
        13
    } else if n < 16 {
        12
    } else if n < 32 {
        11
    } else if n < 64 {
        10
    } else if n < 128 {
        9
    } else if n < 256 {
        8
    } else if n < 512 {
        7
    } else if n < 1024 {
        6
    } else if n < 2048 {
        5
    } else if n < 4096 {
        4
    } else if n < 8192 {
        3
    } else if n < 16384 {
        2
    } else {
        1
    }
}

/// Effective length of the divisor: trailing (high-order) zero nibbles are
/// trimmed, leaving the position just past the most significant nonzero one.
fn trim_len(v: &[i16; 8]) -> (n: usize)
    requires
        nibbles(v@),
        val16(v@) > 0,
    ensures
        1 <= n <= 8,
        v@[n - 1] != 0,
        forall|i: int| n <= i < 8 ==> v@[i] == 0,
        val16(v@.take(n as int)) == val16(v@),
{
    let mut n: usize = 8;
    while n > 0 && v[n - 1] == 0
        invariant
            0 <= n <= 8,
            nibbles(v@),
            val16(v@) > 0,
            forall|i: int| n <= i < 8 ==> v@[i] == 0,
        decreases n,
    {
        n = n - 1;
    }
    proof {
        if n == 0 {
            lemma_val16_zero(v@);
            assert(false);
        }
        lemma_val16_split(v@, n as int);
        assert(forall|i: int| 0 <= i < v@.skip(n as int).len() ==> #[trigger] v@.skip(n as int)[i]
            == 0);
        lemma_val16_zero(v@.skip(n as int));
    }
    n
}

/// Base-16 long division by a single nibble, most significant digit first,
/// carrying the running remainder.
fn div_single(u: &[i16; 16], v0: i16) -> (q: [i16; 16])
    requires
        nibbles(u@),
        1 <= v0 < 16,
    ensures
        nibbles(q@),
        val16(q@) == val16(u@) / (v0 as int),
{
    let mut q: [i16; 16] = [0; 16];
    let mut k: i16 = 0;
    let mut j: usize = 16;
    while j > 0
        invariant
            0 <= j <= 16,
            nibbles(u@),
            1 <= v0 < 16,
            0 <= k < v0,
            nibbles(q@),
            forall|i: int| 0 <= i < j ==> q@[i] == 0,
            val16(u@.skip(j as int)) == val16(q@.skip(j as int)) * v0 + k,
        decreases j,
    {
        let ghost q_old = q@;
        let ghost k_old = k;
        j = j - 1;
        let cur = k * 16 + u[j];
        let digit = cur / v0;
        proof {
            vstd::arithmetic::div_mod::lemma_fundamental_div_mod(cur as int, v0 as int);
            vstd::arithmetic::mul::lemma_mul_is_commutative(v0 as int, digit as int);
            assert(cur < 16 * v0);
            vstd::arithmetic::div_mod::lemma_multiply_divide_lt(cur as int, v0 as int, 16);
            assert(0 <= digit < 16);
            assert(0 <= digit * v0 <= cur);
        }
        q[j] = digit;
        k = cur - digit * v0;
        proof {
            assert(q@ == q_old.update(j as int, digit));
            assert(q@.skip(j + 1) =~= q_old.skip(j + 1));
            lemma_val16_skip_succ(q@, j as int);
            lemma_val16_skip_succ(u@, j as int);
            let qhi = val16(q_old.skip(j + 1));
            assert(val16(q@.skip(j as int)) == digit + 16 * qhi);
            assert(val16(u@.skip(j as int)) == u@[j as int] + 16 * (qhi * v0 + k_old));
            assert((digit + 16 * qhi) * v0 == digit * v0 + 16 * (qhi * v0)) by (nonlinear_arith);
            assert(val16(u@.skip(j as int)) == val16(q@.skip(j as int)) * v0 + k);
        }
    }
    proof {
        assert(u@.skip(0) =~= u@);
        assert(q@.skip(0) =~= q@);
        vstd::arithmetic::mul::lemma_mul_is_commutative(val16(q@), v0 as int);
        vstd::arithmetic::div_mod::lemma_fundamental_div_mod_converse(
            val16(u@),
            v0 as int,
            val16(q@),
            k as int,
        );
    }
    q
}

/// How one nibble shifted left by `s` bits splits into the carry that moves
/// to the next nibble and the part that stays, phrased with division.
proof fn lemma_shift_decompose(d: int, s: int)
    requires
        0 <= d < 16,
        0 <= s <= 3,
    ensures
        d * pshift(s) == 16 * (d / pshift(4 - s)) + (d * pshift(s)) % 16,
        0 <= (d * pshift(s)) % 16 <= 16 - pshift(s),
        0 <= d / pshift(4 - s) < pshift(s),
{
    if s == 0 {
        vstd::arithmetic::div_mod::lemma_small_mod(d as nat, 16nat);
        vstd::arithmetic::div_mod::lemma_basic_div(d, 16);
        assert(d * pshift(s) == d * 1);
        assert((d * 1) % 16 == d);
        assert(d * pshift(s) == 16 * (d / pshift(4 - s)) + (d * pshift(s)) % 16);
    } else if s == 1 {
        vstd::arithmetic::div_mod::lemma_fundamental_div_mod(d, 8);
        vstd::arithmetic::div_mod::lemma_fundamental_div_mod_converse(
            d * 2,
            16,
            d / 8,
            (d % 8) * 2,
        );
        assert(d * pshift(s) == d * 2);
        assert((d * 2) % 16 == (d % 8) * 2);
        assert(d * pshift(s) == 16 * (d / pshift(4 - s)) + (d * pshift(s)) % 16);
    } else if s == 2 {
        vstd::arithmetic::div_mod::lemma_fundamental_div_mod(d, 4);
        vstd::arithmetic::div_mod::lemma_fundamental_div_mod_converse(
            d * 4,
            16,
            d / 4,
            (d % 4) * 4,
        );
    } else {
        vstd::arithmetic::div_mod::lemma_fundamental_div_mod(d, 2);
        vstd::arithmetic::div_mod::lemma_fundamental_div_mod_converse(
            d * 8,
            16,
            d / 2,
            (d % 2) * 8,
        );
    }
}

/// Shift the `n` significant nibbles of the divisor left by `s` bits so its
/// top nibble has its highest bit set; each result nibble takes the bits
/// shifted out of the one below.
fn normalize_divisor(v: &[i16; 8], n: usize, s: i16) -> (vn: [i16; 8])
    requires
        nibbles(v@),
        1 <= n <= 8,
        0 <= s <= 3,
        forall|i: int| n <= i < 8 ==> v@[i] == 0,
        8 <= v@[n - 1] * pshift(s as int) < 16,
    ensures
        nibbles(vn@),
        val16(vn@.take(n as int)) == val16(v@.take(n as int)) * pshift(s as int),
        vn@[n - 1] >= 8,
        forall|i: int| n <= i < 8 ==> vn@[i] == 0,
{
    let ghost ps = pshift(s as int);
    let ghost pr = pshift(4 - s as int);
    let mut vn: [i16; 8] = [0; 8];
    let mut i: usize = 0;
    while i < n
        invariant
            0 <= i <= n <= 8,
            0 <= s <= 3,
            nibbles(v@),
            forall|ii: int| n <= ii < 8 ==> v@[ii] == 0,
            8 <= v@[n - 1] * pshift(s as int) < 16,
            ps == pshift(s as int),
            pr == pshift(4 - s as int),
            forall|ii: int| 0 <= ii < i ==> 0 <= #[trigger] vn@[ii] < 16,
            forall|ii: int| i <= ii < 8 ==> vn@[ii] == 0,
            i >= 1 ==> vn@[i - 1] == (v@[i - 1] as int * ps) % 16 + (if i >= 2 {
                v@[i - 2] as int / pr
            } else {
                0
            }),
            val16(vn@.take(i as int)) == val16(v@.take(i as int)) * ps - (if i >= 1 {
                v@[i - 1] as int / pr
            } else {
                0
            }) * pow16(i as nat),
        decreases n - i,
    {
        let ghost vn_old = vn@;
        let hi = shift_arith_left(v[i], s);
        let lo = if i == 0 {
            0
        } else {
            shift_arith_right(v[i - 1], 4 - s)
        };
        proof {
            lemma_shift_decompose(v@[i as int] as int, s as int);
            if i >= 1 {
                lemma_shift_decompose(v@[i - 1] as int, s as int);
            }
        }
        vn[i] = hi % 16 + lo;
        proof {
            let ii = i as int;
            let d = v@[ii] as int;
            let c = if ii >= 1 { v@[ii - 1] as int / pr } else { 0 };
            let c2 = d / pr;
            assert(vn@ == vn_old.update(ii, (hi % 16 + lo) as i16));
            assert(vn@.take(ii) =~= vn_old.take(ii));
            lemma_val16_take_succ(vn@, ii);
            lemma_val16_take_succ(v@, ii);
            assert(val16(vn@.take(ii + 1)) == val16(vn_old.take(ii)) + pow16(i as nat) * ((d * ps)
                % 16 + c));
            let a = val16(v@.take(ii));
            let p = pow16(i as nat);
            lemma_pow16_pos(i as nat);
            assert((a + p * d) * ps == a * ps + d * ps * p) by (nonlinear_arith);
            assert(p * ((d * ps) % 16 + c) == p * (d * ps) - p * (16 * c2) + p * c)
                by (nonlinear_arith)
                requires
                    d * ps == 16 * c2 + (d * ps) % 16,
            ;
            assert(p * (d * ps) == d * ps * p) by (nonlinear_arith);
            assert(p * (16 * c2) == c2 * (16 * p)) by (nonlinear_arith);
            assert(pow16((i + 1) as nat) == 16 * p);
            assert(c2 * (16 * p) == c2 * pow16((i + 1) as nat));
            assert(c * p == p * c) by (nonlinear_arith);
            assert(val16(vn@.take(ii + 1)) == val16(v@.take(ii + 1)) * ps - c2 * pow16(
                (i + 1) as nat,
            ));
        }
        i = i + 1;
    }
    proof {
        let nn = n as int;
        let d = v@[nn - 1] as int;
        assert(d * ps < 16);
        assert(d < pr && (d * ps) % 16 == d * ps) by {
            if s == 0 {
            } else if s == 1 {
            } else if s == 2 {
            } else {
            }
        }
        vstd::arithmetic::div_mod::lemma_basic_div(d, pr);
        assert(vn@[nn - 1] >= 8);
        vstd::arithmetic::mul::lemma_mul_by_zero_is_zero(pow16(n as nat));
    }
    vn
}

/// Shift the 16-nibble dividend left by `s` bits into a buffer one nibble
/// wider, the extra nibble catching the bits shifted out of the top.
fn normalize_dividend(u: &[i16; 16], s: i16) -> (un: [i16; 17])
    requires
        nibbles(u@),
        0 <= s <= 3,
    ensures
        nibbles(un@),
        val16(un@) == val16(u@) * pshift(s as int),
{
    let ghost ps = pshift(s as int);
    let ghost pr = pshift(4 - s as int);
    let mut un: [i16; 17] = [0; 17];
    let mut i: usize = 0;
    while i < 16
        invariant
            0 <= i <= 16,
            0 <= s <= 3,
            nibbles(u@),
            ps == pshift(s as int),
            pr == pshift(4 - s as int),
            forall|ii: int| 0 <= ii < i ==> 0 <= #[trigger] un@[ii] < 16,
            forall|ii: int| i <= ii < 17 ==> un@[ii] == 0,
            val16(un@.take(i as int)) == val16(u@.take(i as int)) * ps - (if i >= 1 {
                u@[i - 1] as int / pr
            } else {
                0
            }) * pow16(i as nat),
        decreases 16 - i,
    {
        let ghost un_old = un@;
        let hi = shift_arith_left(u[i], s);
        let lo = if i == 0 {
            0
        } else {
            shift_arith_right(u[i - 1], 4 - s)
        };
        proof {
            lemma_shift_decompose(u@[i as int] as int, s as int);
            if i >= 1 {
                lemma_shift_decompose(u@[i - 1] as int, s as int);
            }
        }
        un[i] = hi % 16 + lo;
        proof {
            let ii = i as int;
            let d = u@[ii] as int;
            let c = if ii >= 1 { u@[ii - 1] as int / pr } else { 0 };
            let c2 = d / pr;
            assert(un@ == un_old.update(ii, (hi % 16 + lo) as i16));
            assert(un@.take(ii) =~= un_old.take(ii));
            lemma_val16_take_succ(un@, ii);
            lemma_val16_take_succ(u@, ii);
            assert(val16(un@.take(ii + 1)) == val16(un_old.take(ii)) + pow16(i as nat) * ((d * ps)
                % 16 + c));
            let a = val16(u@.take(ii));
            let p = pow16(i as nat);
            lemma_pow16_pos(i as nat);
            assert((a + p * d) * ps == a * ps + d * ps * p) by (nonlinear_arith);
            assert(p * ((d * ps) % 16 + c) == p * (d * ps) - p * (16 * c2) + p * c)
                by (nonlinear_arith)
                requires
                    d * ps == 16 * c2 + (d * ps) % 16,
            ;
            assert(p * (d * ps) == d * ps * p) by (nonlinear_arith);
            assert(p * (16 * c2) == c2 * (16 * p)) by (nonlinear_arith);
            assert(pow16((i + 1) as nat) == 16 * p);
            assert(c2 * (16 * p) == c2 * pow16((i + 1) as nat));
            assert(c * p == p * c) by (nonlinear_arith);
            assert(val16(un@.take(ii + 1)) == val16(u@.take(ii + 1)) * ps - c2 * pow16(
                (i + 1) as nat,
            ));
        }
        i = i + 1;
    }
    let ghost un_old = un@;
    let top = shift_arith_right(u[15], 4 - s);
    un[16] = top;
    proof {
        lemma_shift_decompose(u@[15] as int, s as int);
        let c = u@[15] as int / pr;
        assert(un@ == un_old.update(16, top));
        assert(un@.take(16) =~= un_old.take(16));
        lemma_val16_take_succ(un@, 16);
        assert(u@.take(16) =~= u@);
        assert(un@.take(17) =~= un@);
        assert(val16(un@) == val16(u@) * ps - c * pow16(16) + pow16(16) * c);
        vstd::arithmetic::mul::lemma_mul_is_commutative(pow16(16), c);
    }
    un
}

/// The three top-anchored decompositions of a dividend window that the
/// trial-digit argument uses.
proof fn lemma_window_decompose(un: Seq<i16>, n: int, j: int)
    requires
        un.len() == 17,
        2 <= n <= 8,
        0 <= j,
        j + n <= 16,
        nibbles(un),
        forall|i: int| j + n < i < 17 ==> un[i] == 0,
    ensures
        val16(un.skip(j)) == val16(un.skip(j).take(n - 2)) + pow16((n - 2) as nat) * ((un[j + n]
            * 16 + un[j + n - 1]) * 16 + un[j + n - 2]),
        val16(un.skip(j)) == val16(un.skip(j).take(n - 1)) + pow16((n - 1) as nat) * (un[j + n]
            * 16 + un[j + n - 1]),
        0 <= val16(un.skip(j).take(n - 2)) < pow16((n - 2) as nat),
        0 <= val16(un.skip(j).take(n - 1)) < pow16((n - 1) as nat),
{
    let sk = un.skip(j);
    assert(nibbles(sk));
    lemma_val16_split(sk, n + 1);
    assert(forall|i: int| 0 <= i < sk.skip(n + 1).len() ==> #[trigger] sk.skip(n + 1)[i] == 0);
    lemma_val16_zero(sk.skip(n + 1));
    vstd::arithmetic::mul::lemma_mul_by_zero_is_zero(pow16((n + 1) as nat));
    assert(val16(sk) == val16(sk.take(n + 1)));
    let win = sk.take(n + 1);
    assert(win.take(n + 1) =~= win);
    lemma_val16_take_succ(win, n);
    lemma_val16_take_succ(win, n - 1);
    lemma_val16_take_succ(win, n - 2);
    assert(win.take(n) =~= sk.take(n));
    assert(win.take(n - 1) =~= sk.take(n - 1));
    assert(win.take(n - 2) =~= sk.take(n - 2));
    assert(win[n] == un[j + n] && win[n - 1] == un[j + n - 1] && win[n - 2] == un[j + n - 2]);
    assert(pow16((n - 1) as nat) == 16 * pow16((n - 2) as nat));
    assert(pow16(n as nat) == 16 * pow16((n - 1) as nat));
    assert(nibbles(sk.take(n - 2)));
    assert(nibbles(sk.take(n - 1)));
    lemma_val16_bounds(sk.take(n - 2));
    lemma_val16_bounds(sk.take(n - 1));
    let p2 = pow16((n - 2) as nat);
    let t3 = un[j + n - 2] as int;
    let t2 = un[j + n - 1] as int;
    let t1 = un[j + n] as int;
    assert(val16(sk) == val16(sk.take(n - 2)) + p2 * t3 + (16 * p2) * t2 + (16 * (16 * p2)) * t1);
    assert(p2 * t3 + (16 * p2) * t2 + (16 * (16 * p2)) * t1 == p2 * ((t1 * 16 + t2) * 16 + t3))
        by (nonlinear_arith);
    assert(val16(sk) == val16(sk.take(n - 1)) + (16 * p2) * t2 + (16 * (16 * p2)) * t1);
    assert((16 * p2) * t2 + (16 * (16 * p2)) * t1 == (16 * p2) * (t1 * 16 + t2))
        by (nonlinear_arith);
}

/// Divisor decompositions anchored at its top one and two nibbles.
proof fn lemma_divisor_decompose(vn: Seq<i16>, n: int)
    requires
        vn.len() == 8,
        2 <= n <= 8,
        nibbles(vn),
    ensures
        val16(vn.take(n)) == val16(vn.take(n - 1)) + pow16((n - 1) as nat) * vn[n - 1],
        val16(vn.take(n)) == val16(vn.take(n - 2)) + pow16((n - 2) as nat) * (vn[n - 1] * 16
            + vn[n - 2]),
        0 <= val16(vn.take(n - 1)) < pow16((n - 1) as nat),
        0 <= val16(vn.take(n - 2)) < pow16((n - 2) as nat),
{
    lemma_val16_take_succ(vn, n - 1);
    lemma_val16_take_succ(vn, n - 2);
    assert(nibbles(vn.take(n - 1)));
    assert(nibbles(vn.take(n - 2)));
    lemma_val16_bounds(vn.take(n - 1));
    lemma_val16_bounds(vn.take(n - 2));
    let p2 = pow16((n - 2) as nat);
    assert(pow16((n - 1) as nat) == 16 * p2);
    assert(p2 * (vn[n - 2] as int) + (16 * p2) * (vn[n - 1] as int) == p2 * ((vn[n - 1] as int)
        * 16 + (vn[n - 2] as int))) by (nonlinear_arith);
}

/// Trial quotient digit for one step of the long division: estimated from
/// the top two dividend nibbles and the divisor's top nibble, then corrected
/// downward until it is at most one too high.
fn estimate_qhat(un: &[i16; 17], vn: &[i16; 8], n: usize, j: usize) -> (qhat: i16)
    requires
        2 <= n <= 8,
        j + n <= 16,
        nibbles(un@),
        nibbles(vn@),
        8 <= vn@[n - 1] < 16,
        forall|i: int| n <= i < 8 ==> vn@[i] == 0,
        forall|i: int| j + n < i < 17 ==> un@[i] == 0,
        val16(un@.skip(j as int + 1)) < val16(vn@.take(n as int)),
    ensures
        0 <= qhat <= 15,
        val16(un@.skip(j as int)) < (qhat + 1) * val16(vn@.take(n as int)),
        (qhat - 1) * val16(vn@.take(n as int)) <= val16(un@.skip(j as int)),
{
    let ghost nn = n as int;
    let ghost jj = j as int;
    let ghost v_val = val16(vn@.take(nn));
    let ghost w = val16(un@.skip(jj));
    let ghost vtop = vn@[nn - 1] as int;
    let ghost vsec = vn@[nn - 2] as int;
    let ghost utop = un@[jj + n] as int;
    let ghost usec = un@[jj + n - 1] as int;
    let ghost uthr = un@[jj + n - 2] as int;
    let ghost top2 = utop * 16 + usec;
    let ghost w3 = top2 * 16 + uthr;
    let ghost v2 = vtop * 16 + vsec;
    let ghost p1 = pow16((nn - 1) as nat);
    let ghost p2 = pow16((nn - 2) as nat);

    proof {
        lemma_window_decompose(un@, nn, jj);
        lemma_divisor_decompose(vn@, nn);
        lemma_pow16_pos((nn - 1) as nat);
        lemma_pow16_pos((nn - 2) as nat);
        // the remainder above position j is smaller than the divisor, so the
        // window's top nibble is at most the divisor's top nibble
        let skj1 = un@.skip(jj + 1);
        assert(nibbles(skj1));
        lemma_val16_split(skj1, nn);
        assert(forall|i: int| 0 <= i < skj1.skip(nn).len() ==> #[trigger] skj1.skip(nn)[i] == 0);
        lemma_val16_zero(skj1.skip(nn));
        vstd::arithmetic::mul::lemma_mul_by_zero_is_zero(pow16(nn as nat));
        lemma_val16_take_succ(skj1, nn - 1);
        assert(skj1[nn - 1] == un@[jj + n]);
        assert(nibbles(skj1.take(nn - 1)));
        lemma_val16_bounds(skj1.take(nn - 1));
        assert(val16(skj1) >= p1 * utop);
        assert(v_val < p1 + p1 * vtop);
        assert(p1 * utop < p1 * (vtop + 1)) by (nonlinear_arith)
            requires
                p1 * utop <= val16(skj1) && val16(skj1) < v_val && v_val < p1 + p1 * vtop,
        ;
        assert(utop <= vtop) by (nonlinear_arith)
            requires
                p1 * utop < p1 * (vtop + 1) && p1 >= 1,
        ;
        assert(top2 <= vtop * 16 + 15);
        // the whole window is below 16 times the divisor
        lemma_val16_skip_succ(un@, jj);
        assert(w == un@[jj] + 16 * val16(skj1));
        assert(w < 16 * v_val);
        assert(p2 * (v2 + 1) == p2 * v2 + p2) by (nonlinear_arith);
        assert(p2 * (w3 + 1) == p2 * w3 + p2) by (nonlinear_arith);
    }

    let top2e = un[j + n] * 16 + un[j + n - 1];
    let mut qhat = top2e / vn[n - 1];
    proof {
        vstd::arithmetic::div_mod::lemma_fundamental_div_mod(top2e as int, vtop);
        vstd::arithmetic::mul::lemma_mul_is_commutative(vtop, qhat as int);
        assert(0 <= qhat * vtop <= top2e);
        assert(qhat <= 31) by (nonlinear_arith)
            requires
                qhat * vtop <= top2e && top2e <= 255 && vtop >= 8 && qhat >= 0,
        ;
        // the initial estimate is never too small
        let rh = top2 - (qhat as int) * vtop;
        assert(0 <= rh < vtop);
        assert(w < p1 + p1 * top2);
        assert(p1 + p1 * top2 <= p1 * vtop * (qhat + 1)) by (nonlinear_arith)
            requires
                top2 == qhat * vtop + rh && rh < vtop && p1 >= 1 && vtop >= 1,
        ;
        assert(p1 * vtop * (qhat + 1) <= v_val * (qhat + 1)) by (nonlinear_arith)
            requires
                p1 * vtop <= v_val && qhat + 1 >= 0,
        ;
        vstd::arithmetic::mul::lemma_mul_is_commutative(v_val, qhat as int + 1);
        assert(w < (qhat + 1) * v_val);
    }
    let mut rhat = top2e - qhat * vn[n - 1];
    let vn_sec = vn[n - 2];
    let u_thr = un[j + n - 2];
    proof {
        assert((qhat as int) * (vn_sec as int) <= 465) by (nonlinear_arith)
            requires
                0 <= qhat <= 31 && 0 <= vn_sec <= 15,
        ;
    }

    while qhat >= 16 || qhat * vn_sec > 16 * rhat + u_thr
        invariant_except_break
            2 <= n <= 8,
            j + n <= 16,
            nibbles(un@),
            nibbles(vn@),
            8 <= vn@[n - 1] < 16,
            vtop == vn@[nn - 1] as int,
            vsec == vn@[nn - 2] as int,
            uthr == un@[jj + n - 2] as int,
            nn == n as int,
            jj == j as int,
            top2 == top2e as int,
            0 <= top2e <= 255,
            v_val == val16(vn@.take(nn)),
            w == val16(un@.skip(jj)),
            v_val >= p1 * vtop,
            v_val >= p2 * v2,
            v_val <= p2 * (v2 + 1) - 1,
            w >= p2 * w3,
            w <= p2 * w3 + p2 - 1,
            w < 16 * v_val,
            0 <= w,
            0 <= vsec < 16,
            0 <= uthr < 16,
            vn_sec as int == vsec,
            u_thr as int == uthr,
            top2 <= vtop * 16 + 15,
            w3 == top2 * 16 + uthr,
            v2 == vtop * 16 + vsec,
            p1 == pow16((nn - 1) as nat),
            p2 == pow16((nn - 2) as nat),
            p1 >= 1,
            p2 >= 1,
            v2 >= 128,
            0 <= qhat <= 31,
            (qhat as int) * (vn_sec as int) <= 465,
            rhat as int == top2 - (qhat as int) * vtop,
            0 <= rhat < 16,
            w < (qhat + 1) * v_val,
        ensures
            0 <= qhat <= 15,
            rhat as int == top2 - (qhat as int) * vtop,
            (qhat as int) * vsec <= 16 * rhat + uthr,
            w < (qhat + 1) * v_val,
        decreases qhat,
    {
        proof {
            // the loop only runs while the digit is still at least one too
            // high, so decrementing keeps the window below (qhat+1) * divisor
            if qhat >= 16 {
                assert(w < 16 * v_val);
                assert(16 * v_val <= (qhat as int) * v_val) by (nonlinear_arith)
                    requires
                        qhat >= 16 && v_val >= 0,
                ;
            } else {
                assert((qhat as int) * v2 >= w3 + 1) by (nonlinear_arith)
                    requires
                        (qhat as int) * vsec > 16 * rhat + uthr && rhat as int == top2 - (qhat
                            as int) * vtop && w3 == top2 * 16 + uthr && v2 == vtop * 16 + vsec,
                ;
                assert(p2 * (w3 + 1) <= p2 * (qhat as int * v2)) by (nonlinear_arith)
                    requires
                        w3 + 1 <= qhat as int * v2 && p2 >= 1,
                ;
                assert(p2 * (w3 + 1) == p2 * w3 + p2) by (nonlinear_arith);
                assert(p2 * (qhat as int * v2) <= (qhat as int) * v_val) by (nonlinear_arith)
                    requires
                        v_val >= p2 * v2 && qhat >= 0 && p2 >= 1,
                ;
                assert(w < (qhat as int) * v_val);
            }
            assert(w < (qhat as int) * v_val);
            assert(qhat >= 1) by (nonlinear_arith)
                requires
                    w < (qhat as int) * v_val && w >= 0 && qhat >= 0,
            ;
        }
        let ghost qh0 = qhat as int;
        qhat = qhat - 1;
        rhat = rhat + vn[n - 1];
        proof {
            assert((qh0 - 1) * vtop == qh0 * vtop - vtop) by (nonlinear_arith);
            assert(rhat as int == top2 - (qhat as int) * vtop);
            assert((qhat as int) * (vn_sec as int) <= 465) by (nonlinear_arith)
                requires
                    0 <= qhat <= 31 && 0 <= vn_sec <= 15,
            ;
        }
        if rhat >= 16 {
            proof {
                // the break can only fire with a valid digit: the window's
                // top nibble never exceeds the divisor's, so the running
                // remainder reaching the base bounds the digit by 15
                assert(top2 <= vtop * 16 + 15);
                assert(qhat <= 15) by (nonlinear_arith)
                    requires
                        rhat as int == top2 - (qhat as int) * vtop && rhat >= 16 && top2 <= vtop
                            * 16 + 15 && vtop >= 8 && qhat >= 0,
                ;
                assert((qhat as int) * vsec <= 225) by (nonlinear_arith)
                    requires
                        0 <= qhat <= 15 && 0 <= vsec <= 15,
                ;
                assert(16 * rhat + uthr >= 256);
            }
            break;
        }
    }
    proof {
        // at most one add-back: the corrected digit is at most one too high
        lemma_window_decompose(un@, nn, jj);
        lemma_divisor_decompose(vn@, nn);
        lemma_pow16_pos((nn - 2) as nat);
        assert(p2 * (v2 + 1) == p2 * v2 + p2) by (nonlinear_arith);
        assert(v_val <= p2 * (v2 + 1) - 1);
        assert(w >= p2 * w3);
        assert((qhat as int) * v2 <= w3) by (nonlinear_arith)
            requires
                (qhat as int) * vsec <= 16 * rhat + uthr && rhat as int == top2 - (qhat as int)
                    * vtop && w3 == top2 * 16 + uthr && v2 == vtop * 16 + vsec,
        ;
        if qhat >= 1 {
            assert((qhat - 1) * v_val <= (qhat - 1) * (p2 * (v2 + 1))) by (nonlinear_arith)
                requires
                    v_val <= p2 * (v2 + 1) - 1 && qhat >= 1,
            ;
            assert((qhat - 1) * (p2 * (v2 + 1)) <= p2 * (qhat as int * v2)) by (nonlinear_arith)
                requires
                    qhat as int <= v2 + 1 && p2 >= 1 && qhat >= 1,
            ;
            assert(p2 * (qhat as int * v2) <= p2 * w3) by (nonlinear_arith)
                requires
                    qhat as int * v2 <= w3 && p2 >= 1,
            ;
            assert((qhat - 1) * v_val <= w);
        } else {
            assert((qhat - 1) * v_val <= 0) by (nonlinear_arith)
                requires
                    qhat == 0 && v_val >= 0,
            ;
        }
    }
    qhat
}

/// Masking to the low four bits computes the value modulo 16, also for the
/// negative intermediates of the borrow propagation.
pub(crate) proof fn lemma_mask15(x: i16)
    by (bit_vector)
    requires
        -256 <= x < 256,
    ensures
        x & 0x0F == (((x as int) % 16) as i16),
        0 <= x & 0x0F < 16,
{
}

/// Multiply the `n` divisor nibbles by a trial digit and subtract the
/// product from the dividend window at offset `j`, propagating the borrow;
/// the window's top nibble takes the final borrow and goes negative exactly
/// when the trial digit was one too high.
#[verifier::rlimit(50)]
fn mul_sub(un: &mut [i16; 17], vn: &[i16; 8], n: usize, j: usize, qhat: i16)
    requires
        2 <= n <= 8,
        j + n <= 16,
        nibbles(old(un)@),
        nibbles(vn@),
        0 <= qhat <= 15,
    ensures
        forall|i: int| 0 <= i < 17 && !(j <= i <= j + n) ==> final(un)@[i] == old(un)@[i],
        forall|i: int| j <= i < j + n ==> 0 <= #[trigger] final(un)@[i] < 16,
        -16 <= final(un)@[j + n] <= 15,
        val16(final(un)@) == val16(old(un)@) - qhat * val16(vn@.take(n as int)) * pow16(j as nat),
{
    let ghost un0 = un@;
    let ghost pj = pow16(j as nat);
    proof {
        assert(val16(vn@.take(0)) == 0);
        vstd::arithmetic::mul::lemma_mul_by_zero_is_zero(qhat as int);
        vstd::arithmetic::mul::lemma_mul_by_zero_is_zero(pow16(0));
        vstd::arithmetic::mul::lemma_mul_by_zero_is_zero(pj);
    }
    let mut k: i16 = 0;
    let mut i: usize = 0;
    while i < n
        invariant
            0 <= i <= n,
            2 <= n <= 8,
            j + n <= 16,
            nibbles(un0),
            nibbles(vn@),
            0 <= qhat <= 15,
            un0 == old(un)@,
            pj == pow16(j as nat),
            0 <= k <= 16,
            un@.len() == 17,
            forall|ii: int| 0 <= ii < 17 && !(j <= ii < j + i) ==> #[trigger] un@[ii] == un0[ii],
            forall|ii: int| j <= ii < j + i ==> 0 <= #[trigger] un@[ii] < 16,
            val16(un@) == val16(un0) - (qhat * val16(vn@.take(i as int)) - k * pow16(i as nat))
                * pj,
        decreases n - i,
    {
        let ghost un_cur = un@;
        let ghost k0 = k as int;
        let ghost pi = pow16(i as nat);
        proof {
            assert(0 <= (qhat as int) * (vn@[i as int] as int) <= 225) by (nonlinear_arith)
                requires
                    0 <= qhat <= 15 && 0 <= vn@[i as int] < 16,
            ;
            assert(un@[i as int + j as int] == un0[i as int + j as int]);
            assert(0 <= un@[i as int + j as int] < 16);
        }
        let p = qhat * vn[i];
        proof {
            lemma_mask15(p);
        }
        let t = un[i + j] - k - (p & 0x0F);
        proof {
            lemma_mask15(t);
        }
        un[i + j] = t & 0x0F;
        let pk = shift_arith_right(p, 4);
        let tk = shift_arith_right(t, 4);
        k = pk - tk;
        proof {
            let ii = i as int;
            let pp = p as int;
            let tt = t as int;
            let d = vn@[ii] as int;
            vstd::arithmetic::div_mod::lemma_fundamental_div_mod(pp, 16);
            vstd::arithmetic::div_mod::lemma_fundamental_div_mod(tt, 16);
            assert(0 <= pp % 16 < 16 && 0 <= tt % 16 < 16);
            assert(0 <= pk <= 14);
            assert(-31 <= tt && tt <= 15);
            assert(-2 <= tk <= 0);
            assert(0 <= k <= 16);
            // the value moved out of position i+j together with the new
            // borrow equals the subtracted digit product exactly
            lemma_val16_update(un_cur, ii + j, (t & 0x0F) as i16);
            lemma_pow16_adds(i as nat, j as nat);
            vstd::arithmetic::mul::lemma_mul_is_commutative(pi, pj);
            assert(pow16((i + j) as nat) == pi * pj);
            lemma_val16_take_succ(vn@, ii);
            let valv = val16(vn@.take(ii));
            let valv1 = val16(vn@.take(ii + 1));
            assert(valv1 == valv + pi * d);
            assert(un@ == un_cur.update(ii + j, (t & 0x0F) as i16));
            assert(val16(un@) == val16(un_cur) + (pi * pj) * (tt % 16 - un_cur[ii + j]));
            assert(tt % 16 - un_cur[ii + j] == -k0 - pp % 16 - 16 * (tt / 16));
            assert(pow16((i + 1) as nat) == 16 * pi);
            let pm = pp % 16;
            let pdv = pp / 16;
            let tdv = tt / 16;
            let kk = k as int;
            let x = -k0 - pm - 16 * tdv;
            assert((qhat * valv - k0 * pi) * pj - (qhat * valv1 - kk * (16 * pi)) * pj == (qhat
                * valv - k0 * pi - (qhat * valv1 - kk * (16 * pi))) * pj) by (nonlinear_arith);
            assert(qhat * valv - k0 * pi - (qhat * valv1 - kk * (16 * pi)) == pi * x)
                by (nonlinear_arith)
                requires
                    valv1 == valv + pi * d,
                    pp == (qhat as int) * d,
                    pp == 16 * pdv + pm,
                    kk == pdv - tdv,
                    x == -k0 - pm - 16 * tdv,
            ;
            assert((pi * pj) * x == (pi * x) * pj) by (nonlinear_arith);
            assert((pi * pj) * (-k0 - pm - 16 * tdv) == (qhat * valv - k0 * pi) * pj - (qhat
                * valv1 - kk * (16 * pi)) * pj);
            assert(val16(un@) == val16(un0) - (qhat * val16(vn@.take(ii + 1)) - k * pow16(
                (i + 1) as nat,
            )) * pj);
        }
        i = i + 1;
    }
    let ghost un_cur = un@;
    proof {
        assert(un@[j as int + n as int] == un0[j as int + n as int]);
        assert(0 <= un@[j as int + n as int] < 16);
    }
    let t_top = un[j + n] - k;
    un[j + n] = t_top;
    proof {
        let nn = n as int;
        let jj = j as int;
        lemma_val16_update(un_cur, jj + nn, t_top);
        lemma_pow16_adds(n as nat, j as nat);
        vstd::arithmetic::mul::lemma_mul_is_commutative(pow16(n as nat), pj);
        assert(un@ == un_cur.update(jj + nn, t_top));
        assert(val16(un@) == val16(un_cur) + (pow16(n as nat) * pj) * (-(k as int)));
        let v_val = val16(vn@.take(nn));
        assert((pow16(n as nat) * pj) * (-(k as int)) == -((pow16(n as nat) * pj) * (k as int)))
            by (nonlinear_arith);
        assert((qhat * v_val - k * pow16(n as nat)) * pj + (pow16(n as nat) * pj) * (k as int)
            == (qhat * v_val) * pj) by (nonlinear_arith);
        assert(val16(un@) == val16(un0) - qhat * v_val * pj);
    }
}

/// Add the divisor back into the dividend window once, with carry
/// propagation, undoing one subtraction after an overshot trial digit.
fn add_back(un: &mut [i16; 17], vn: &[i16; 8], n: usize, j: usize)
    requires
        2 <= n <= 8,
        j + n <= 16,
        nibbles(vn@),
        forall|i: int| 0 <= i < 17 && i != j + n ==> 0 <= #[trigger] old(un)@[i] < 16,
        -16 <= old(un)@[j + n] <= 15,
    ensures
        forall|i: int| 0 <= i < 17 && !(j <= i <= j + n) ==> final(un)@[i] == old(un)@[i],
        forall|i: int| j <= i < j + n ==> 0 <= #[trigger] final(un)@[i] < 16,
        old(un)@[j + n] <= final(un)@[j + n] <= old(un)@[j + n] + 1,
        val16(final(un)@) == val16(old(un)@) + val16(vn@.take(n as int)) * pow16(j as nat),
{
    let ghost un0 = un@;
    let ghost pj = pow16(j as nat);
    proof {
        assert(val16(vn@.take(0)) == 0);
        vstd::arithmetic::mul::lemma_mul_by_zero_is_zero(pow16(0));
        vstd::arithmetic::mul::lemma_mul_by_zero_is_zero(pj);
    }
    let mut k: i16 = 0;
    let mut i: usize = 0;
    while i < n
        invariant
            0 <= i <= n,
            2 <= n <= 8,
            j + n <= 16,
            nibbles(vn@),
            forall|ii: int| 0 <= ii < 17 && ii != j + n ==> 0 <= #[trigger] un0[ii] < 16,
            un0 == old(un)@,
            pj == pow16(j as nat),
            0 <= k <= 1,
            un@.len() == 17,
            forall|ii: int| 0 <= ii < 17 && !(j <= ii < j + i) ==> #[trigger] un@[ii] == un0[ii],
            forall|ii: int| j <= ii < j + i ==> 0 <= #[trigger] un@[ii] < 16,
            val16(un@) == val16(un0) + (val16(vn@.take(i as int)) - k * pow16(i as nat)) * pj,
        decreases n - i,
    {
        let ghost un_cur = un@;
        let ghost k0 = k as int;
        let ghost pi = pow16(i as nat);
        proof {
            assert(un@[i as int + j as int] == un0[i as int + j as int]);
            assert(0 <= un@[i as int + j as int] < 16);
        }
        let t2 = un[i + j] + vn[i] + k;
        proof {
            lemma_mask15(t2);
        }
        un[i + j] = t2 & 0x0F;
        k = shift_arith_right(t2, 4);
        proof {
            let ii = i as int;
            let tt = t2 as int;
            let d = vn@[ii] as int;
            vstd::arithmetic::div_mod::lemma_fundamental_div_mod(tt, 16);
            assert(0 <= k <= 1);
            lemma_val16_update(un_cur, ii + j, (t2 & 0x0F) as i16);
            lemma_pow16_adds(i as nat, j as nat);
            vstd::arithmetic::mul::lemma_mul_is_commutative(pi, pj);
            assert(pow16((i + j) as nat) == pi * pj);
            lemma_val16_take_succ(vn@, ii);
            let valv = val16(vn@.take(ii));
            let valv1 = val16(vn@.take(ii + 1));
            assert(valv1 == valv + pi * d);
            assert(un@ == un_cur.update(ii + j, (t2 & 0x0F) as i16));
            assert(val16(un@) == val16(un_cur) + (pi * pj) * (tt % 16 - un_cur[ii + j]));
            assert(tt % 16 - un_cur[ii + j] == d + k0 - 16 * (tt / 16));
            assert(pow16((i + 1) as nat) == 16 * pi);
            assert((pi * pj) * (d + k0 - 16 * (tt / 16)) == (valv1 - (k as int) * (16 * pi)) * pj
                - (valv - k0 * pi) * pj) by (nonlinear_arith)
                requires
                    valv1 == valv + pi * d,
                    k as int == tt / 16,
            ;
            assert(val16(un@) == val16(un0) + (val16(vn@.take(ii + 1)) - k * pow16(
                (i + 1) as nat,
            )) * pj);
        }
        i = i + 1;
    }
    let ghost un_cur = un@;
    proof {
        assert(un@[j as int + n as int] == un0[j as int + n as int]);
        assert(-16 <= un@[j as int + n as int] <= 15);
    }
    let top = un[j + n] + k;
    un[j + n] = top;
    proof {
        let nn = n as int;
        let jj = j as int;
        lemma_val16_update(un_cur, jj + nn, top);
        lemma_pow16_adds(n as nat, j as nat);
        vstd::arithmetic::mul::lemma_mul_is_commutative(pow16(n as nat), pj);
        assert(un@ == un_cur.update(jj + nn, top));
        assert(val16(un@) == val16(un_cur) + (pow16(n as nat) * pj) * (k as int));
        let v_val = val16(vn@.take(nn));
        assert((v_val - k * pow16(n as nat)) * pj + (pow16(n as nat) * pj) * (k as int) == v_val
            * pj) by (nonlinear_arith);
        assert(val16(un@) == val16(un0) + v_val * pj);
    }
}

/// A dividend window whose only possibly-out-of-range nibble is its top one
/// splits into `n` low digits and that top value at weight `16^n`.
proof fn lemma_split_window(b: Seq<i16>, j: int, n: int)
    requires
        b.len() == 17,
        0 <= j,
        2 <= n,
        j + n <= 16,
        forall|i: int| j + n < i < 17 ==> b[i] == 0,
        forall|i: int| j <= i < j + n ==> 0 <= #[trigger] b[i] < 16,
    ensures
        val16(b.skip(j)) == val16(b.skip(j).take(n)) + pow16(n as nat) * b[j + n],
        0 <= val16(b.skip(j).take(n)) < pow16(n as nat),
{
    let sk = b.skip(j);
    lemma_val16_split(sk, n);
    assert(sk.skip(n) =~= b.skip(j + n));
    lemma_val16_skip_succ(b, j + n);
    let tail = b.skip(j + n + 1);
    assert(forall|i: int| 0 <= i < tail.len() ==> #[trigger] tail[i] == 0);
    lemma_val16_zero(tail);
    assert(val16(sk.skip(n)) == b[j + n]);
    assert(forall|i: int| 0 <= i < n ==> 0 <= #[trigger] sk.take(n)[i] < 16);
    assert(nibbles(sk.take(n)));
    lemma_val16_bounds(sk.take(n));
}

/// A change of `delta * 16^j` to a buffer that is untouched below `j`
/// changes the suffix from `j` by exactly `delta`.
proof fn lemma_prefix_cancel(pre: Seq<i16>, cur: Seq<i16>, j: int, delta: int)
    requires
        pre.len() == 17,
        cur.len() == 17,
        0 <= j <= 17,
        pre.take(j) == cur.take(j),
        val16(cur) == val16(pre) + delta * pow16(j as nat),
    ensures
        val16(cur.skip(j)) == val16(pre.skip(j)) + delta,
{
    lemma_val16_split(pre, j);
    lemma_val16_split(cur, j);
    lemma_pow16_pos(j as nat);
    let pj = pow16(j as nat);
    assert(pj * val16(cur.skip(j)) == pj * (val16(pre.skip(j)) + delta)) by (nonlinear_arith)
        requires
            val16(cur) == val16(pre) + delta * pj,
            val16(pre) == val16(pre.take(j)) + pj * val16(pre.skip(j)),
            val16(cur) == val16(cur.take(j)) + pj * val16(cur.skip(j)),
            val16(pre.take(j)) == val16(cur.take(j)),
    ;
    vstd::arithmetic::mul::lemma_mul_equality_converse(
        pj,
        val16(cur.skip(j)),
        val16(pre.skip(j)) + delta,
    );
}

/// The long-division main loop over a normalized dividend and divisor:
/// produces the quotient one nibble at a time from the most significant
/// position down, leaving the remainder in the dividend buffer.
fn divide_normalized(un: &mut [i16; 17], vn: &[i16; 8], n: usize) -> (q: [i16; 16])
    requires
        2 <= n <= 8,
        nibbles(old(un)@),
        nibbles(vn@),
        8 <= vn@[n - 1] < 16,
        forall|i: int| n <= i < 8 ==> vn@[i] == 0,
        val16(old(un)@.skip(17 - n)) < val16(vn@.take(n as int)),
    ensures
        nibbles(q@),
        forall|i: int| 17 - n <= i < 16 ==> q@[i] == 0,
        val16(old(un)@) == val16(vn@.take(n as int)) * val16(q@) + val16(final(un)@),
        nibbles(final(un)@),
        0 <= val16(final(un)@) < val16(vn@.take(n as int)),
{
    let ghost un_init = un@;
    let ghost v_val = val16(vn@.take(n as int));
    let mut q: [i16; 16] = [0; 16];
    proof {
        assert(forall|i: int| 0 <= i < q@.len() ==> #[trigger] q@[i] == 0);
        lemma_val16_zero(q@);
        vstd::arithmetic::mul::lemma_mul_by_zero_is_zero(v_val);
        assert(nibbles(vn@.take(n as int)));
        lemma_val16_bounds(vn@.take(n as int));
        lemma_val16_take_succ(vn@, n as int - 1);
        assert(nibbles(vn@.take(n as int - 1)));
        lemma_val16_bounds(vn@.take(n as int - 1));
        lemma_pow16_pos((n - 1) as nat);
        assert(pow16((n - 1) as nat) * vn@[n - 1] >= 8) by (nonlinear_arith)
            requires
                pow16((n - 1) as nat) >= 1 && vn@[n - 1] >= 8,
        ;
        assert(v_val >= 8);
    }
    let mut jj: usize = 17 - n;
    while jj > 0
        invariant
            2 <= n <= 8,
            0 <= jj <= 17 - n,
            nibbles(vn@),
            8 <= vn@[n - 1] < 16,
            forall|i: int| n <= i < 8 ==> vn@[i] == 0,
            v_val == val16(vn@.take(n as int)),
            8 <= v_val < pow16(n as nat),
            un@.len() == 17,
            nibbles(un@),
            forall|i: int| jj + n <= i < 17 ==> un@[i] == 0,
            nibbles(q@),
            forall|i: int| 0 <= i < jj ==> q@[i] == 0,
            forall|i: int| 17 - n <= i < 16 ==> q@[i] == 0,
            val16(un_init) == v_val * val16(q@) + val16(un@),
            val16(un@.skip(jj as int)) < v_val,
        decreases jj,
    {
        let j = jj - 1;
        let ghost pre = un@;
        let ghost w = val16(un@.skip(j as int));
        let ghost pj = pow16(j as nat);
        let ghost pn = pow16(n as nat);
        proof {
            assert(nibbles(pre.skip(j as int)));
            lemma_val16_bounds(pre.skip(j as int));
            lemma_pow16_pos(j as nat);
        }
        let qhat = estimate_qhat(un, vn, n, j);
        mul_sub(un, vn, n, j, qhat);
        let ghost mid = un@;
        proof {
            assert(pre.take(j as int) =~= mid.take(j as int));
            assert((-(qhat * v_val)) * pj == -(qhat * v_val * pj)) by (nonlinear_arith);
            lemma_prefix_cancel(pre, mid, j as int, -(qhat * v_val));
            assert(val16(mid.skip(j as int)) == w - qhat * v_val);
            lemma_split_window(mid, j as int, n as int);
            assert((qhat + 1) * v_val == qhat * v_val + v_val) by (nonlinear_arith);
            assert((qhat - 1) * v_val == qhat * v_val - v_val) by (nonlinear_arith);
            vstd::arithmetic::mul::lemma_mul_by_zero_is_zero(pn);
        }
        let t_top = un[j + n];
        let ghost dig: int = if t_top < 0 { qhat - 1 } else { qhat as int };
        let ghost q_old = q@;
        if t_top < 0 {
            proof {
                // a negative top nibble means the trial digit was one too
                // high; the window went negative by less than the divisor
                assert(pn * t_top <= pn * (-1)) by (nonlinear_arith)
                    requires
                        t_top <= -1 && pn >= 1,
                ;
                assert(val16(mid.skip(j as int)) < 0);
                assert(qhat >= 1) by (nonlinear_arith)
                    requires
                        w - (qhat as int) * v_val < 0 && w >= 0 && v_val >= 0 && qhat >= 0,
                ;
            }
            q[j] = qhat - 1;
            add_back(un, vn, n, j);
            proof {
                assert(mid.take(j as int) =~= un@.take(j as int));
                lemma_prefix_cancel(mid, un@, j as int, v_val);
                assert(val16(un@.skip(j as int)) == w - qhat * v_val + v_val);
                assert(w - qhat * v_val + v_val == w - dig * v_val) by (nonlinear_arith)
                    requires
                        dig == qhat - 1,
                ;
                // the restored window is again in range, so its top nibble
                // must have come back to zero
                assert((qhat - 1) * v_val <= w);
                assert(0 <= val16(un@.skip(j as int)) < v_val);
                lemma_split_window(un@, j as int, n as int);
                let low2 = val16(un@.skip(j as int).take(n as int));
                let ntop = un@[j as int + n as int] as int;
                assert(pn * ntop == val16(un@.skip(j as int)) - low2);
                assert(-pn < pn * ntop < pn);
                assert(ntop == 0) by (nonlinear_arith)
                    requires
                        -pn < pn * ntop < pn && pn >= 1,
                ;
            }
        } else {
            proof {
                // the window stayed in range: the digit was exact and the
                // top nibble is exactly zero
                let low = val16(mid.skip(j as int).take(n as int));
                assert(val16(mid.skip(j as int)) < v_val);
                assert(t_top < 1) by (nonlinear_arith)
                    requires
                        low + pn * t_top < pn && low >= 0 && pn >= 1 && t_top >= 0,
                ;
                assert(t_top == 0);
                assert(val16(mid.skip(j as int)) == low);
                assert(0 <= val16(mid.skip(j as int)) < v_val);
            }
            q[j] = qhat;
        }
        proof {
            let jjint = j as int;
            let cur = un@;
            // the buffer above the new window is zero again
            assert(cur[jjint + n] == 0);
            assert(forall|i: int| jjint + n <= i < 17 ==> #[trigger] cur[i] == 0);
            assert(nibbles(cur));
            // the whole buffer dropped by exactly digit * divisor at weight j
            if t_top < 0 {
                assert((qhat - 1) * v_val * pj == qhat * v_val * pj - v_val * pj)
                    by (nonlinear_arith);
            }
            assert(val16(cur) == val16(pre) - dig * v_val * pj);
            // quotient digit recorded at its weight
            assert(0 <= dig <= 15);
            assert(q@ == q_old.update(jjint, dig as i16));
            assert(q_old[jjint] == 0);
            lemma_val16_update(q_old, jjint, dig as i16);
            assert(val16(q@) == val16(q_old) + pj * dig);
            assert(v_val * (val16(q_old) + pj * dig) + (val16(pre) - dig * v_val * pj) == v_val
                * val16(q_old) + val16(pre)) by (nonlinear_arith);
            assert(val16(un_init) == v_val * val16(q@) + val16(cur));
            // the new remainder is in range for the next position
            assert(val16(cur.skip(jjint)) == w - dig * v_val);
            assert(0 <= val16(cur.skip(jjint)) < v_val);
        }
        jj = j;
    }
    proof {
        assert(un@.skip(0) =~= un@);
        assert(nibbles(un@));
        lemma_val16_bounds(un@);
    }
    q
}

/// Eight consecutive nibbles read as four base-256 limbs, with zeros above.
pub(crate) proof fn lemma_nibbles_value(s: Seq<i16>, o: int, p0: int, p1: int, p2: int, p3: int)
    requires
        0 <= o,
        o + 8 <= s.len(),
        s[o] + 16 * s[o + 1] == p0,
        s[o + 2] + 16 * s[o + 3] == p1,
        s[o + 4] + 16 * s[o + 5] == p2,
        s[o + 6] + 16 * s[o + 7] == p3,
        forall|i: int| o + 8 <= i < s.len() ==> s[i] == 0,
    ensures
        val16(s.skip(o)) == p0 + 0x100 * p1 + 0x1_0000 * p2 + 0x100_0000 * p3,
{
    lemma_val16_pair(s, o);
    lemma_val16_pair(s, o + 2);
    lemma_val16_pair(s, o + 4);
    lemma_val16_pair(s, o + 6);
    let tail = s.skip(o + 8);
    assert(forall|i: int| 0 <= i < tail.len() ==> #[trigger] tail[i] == 0);
    lemma_val16_zero(tail);
}

/// Generalized nibble long division, Knuth's normalized algorithm at base
/// 16: divides a 16-nibble dividend by an 8-nibble divisor and returns the
/// 16-nibble quotient, nibble 0 least significant.
pub fn div_u4(u: [i16; 16], v: [i16; 8]) -> (q: [i16; 16])
    requires
        nibbles(u@),
        nibbles(v@),
        val16(v@) > 0,
    ensures
        nibbles(q@),
        val16(q@) == val16(u@) / val16(v@),
{
    let n = trim_len(&v);
    if n == 1 {
        let q = div_single(&u, v[0]);
        proof {
            let t1 = v@.take(1);
            assert(t1.len() == 1);
            assert(t1.drop_first().len() == 0);
            assert(val16(t1.drop_first()) == 0);
            assert(val16(t1) == t1[0] + 16 * val16(t1.drop_first()));
            assert(val16(v@) == v@[0]);
        }
        return q;
    }
    let s = nlz(v[n - 1]) - 12;
    proof {
        assert(1 <= v@[n - 1] < 16);
        assert(0 <= s <= 3 && 8 <= v@[n - 1] * pshift(s as int) < 16) by {
            if v@[n - 1] >= 8 {
            } else if v@[n - 1] >= 4 {
            } else if v@[n - 1] >= 2 {
            } else {
            }
        }
    }
    let mut un = normalize_dividend(&u, s);
    let vn = normalize_divisor(&v, n, s);
    let ghost ps = pshift(s as int);
    let ghost u_val = val16(u@);
    let ghost v_val = val16(v@);
    proof {
        // the dividend, even shifted, stays under the divisor's range for
        // the top quotient position
        lemma_val16_bounds(u@);
        lemma_pow16_values();
        assert(nibbles(un@));
        lemma_val16_skip_div(un@, 17 - n);
        lemma_pow16_adds((n - 1) as nat, (17 - n) as nat);
        lemma_pow16_pos((n - 1) as nat);
        lemma_pow16_pos((17 - n) as nat);
        let p16 = pow16(16);
        let pa = pow16((n - 1) as nat);
        let pb = pow16((17 - n) as nat);
        assert(val16(un@) <= (p16 - 1) * 8) by (nonlinear_arith)
            requires
                val16(un@) == u_val * ps && 0 <= u_val <= p16 - 1 && 1 <= ps <= 8,
        ;
        assert((p16 - 1) * 8 < pb * (8 * pa)) by (nonlinear_arith)
            requires
                p16 == pa * pb && pa >= 1 && pb >= 1,
        ;
        vstd::arithmetic::div_mod::lemma_multiply_divide_lt(val16(un@), pb, 8 * pa);
        assert(val16(un@.skip(17 - n)) < 8 * pa);
        lemma_val16_take_succ(vn@, n as int - 1);
        assert(nibbles(vn@.take(n as int - 1)));
        lemma_val16_bounds(vn@.take(n as int - 1));
        assert(pa * vn@[n - 1] >= pa * 8) by (nonlinear_arith)
            requires
                pa >= 1 && vn@[n - 1] >= 8,
        ;
        assert(val16(vn@.take(n as int)) >= 8 * pa);
    }
    let q = divide_normalized(&mut un, &vn, n);
    proof {
        // dividing the shifted pair is dividing the unshifted pair
        let vps = val16(vn@.take(n as int));
        assert(vps == v_val * ps);
        vstd::arithmetic::div_mod::lemma_fundamental_div_mod(u_val, v_val);
        let t = u_val / v_val;
        let r0 = u_val % v_val;
        assert(u_val * ps == (v_val * ps) * t + r0 * ps) by (nonlinear_arith)
            requires
                u_val == v_val * t + r0,
        ;
        assert(0 <= r0 * ps && r0 * ps < v_val * ps) by (nonlinear_arith)
            requires
                0 <= r0 < v_val && ps >= 1,
        ;
        assert(t >= 0) by {
            vstd::arithmetic::div_mod::lemma_div_pos_is_pos(u_val, v_val);
        }
        vstd::arithmetic::div_mod::lemma_fundamental_div_mod_converse(
            u_val * ps,
            v_val * ps,
            t,
            r0 * ps,
        );
        let rem = val16(un@);
        vstd::arithmetic::mul::lemma_mul_is_commutative(vps, val16(q@));
        vstd::arithmetic::div_mod::lemma_fundamental_div_mod_converse(
            u_val * ps,
            v_val * ps,
            val16(q@),
            rem,
        );
    }
    q
}

/// The absolute value of a mathematical integer.
pub open spec fn abs_int(a: int) -> int {
    if a >= 0 {
        a
    } else {
        -a
    }
}

/// Truncating division, rounding toward zero: the quotient of the
/// magnitudes with the sign of the exact quotient restored, as native
/// 32-bit division rounds.
pub open spec fn trunc_div(a: int, b: int) -> int {
    if (a >= 0) == (b >= 0) {
        abs_int(a) / abs_int(b)
    } else {
        -(abs_int(a) / abs_int(b))
    }
}

impl Int32 {
    /// Truncating 32-bit division through the nibble long division: both
    /// operands go to their magnitudes, the magnitudes divide, and the
    /// quotient takes the operands' combined sign. Fails, leaving the
    /// receiver untouched, exactly when the divisor is the zero value; the
    /// one overflowing quotient wraps, as every operation here does.
    #[verifier::rlimit(80)]
    pub fn div(&mut self, other: &Self) -> (r: Result<(), DivisionByZero>)
        requires
            old(self).wf(),
            other.wf(),
        ensures
            final(self).wf(),
            other.value_u() == 0 ==> r is Err && *final(self) == *old(self),
            other.value_u() != 0 ==> r is Ok && final(self).value_u() == trunc_div(
                old(self).value_i(),
                other.value_i(),
            ) % 0x1_0000_0000,
            other.value_u() != 0 && !(old(self).value_i() == -0x8000_0000 && other.value_i()
                == -1) ==> final(self).value_i() == trunc_div(
                old(self).value_i(),
                other.value_i(),
            ),
    {
        if other.parts[0] == 0 && other.parts[1] == 0 && other.parts[2] == 0 && other.parts[3]
            == 0 {
            return Err(DivisionByZero);
        }
        let ghost a_i = old(self).value_i();
        let ghost b_i = other.value_i();
        let negative = (self.parts[3] >= 0x80) ^ (other.parts[3] >= 0x80);
        proof {
            assert(negative == ((a_i >= 0) != (b_i >= 0)));
        }
        if self.parts[3] >= 0x80 {
            self.neg();
            proof {
                lemma_mod32(0x1_0000_0000 - old(self).value_u());
            }
        }
        proof {
            assert(self.value_u() == abs_int(a_i));
        }
        let mut divisor = Int32 { parts: other.parts };
        if divisor.parts[3] >= 0x80 {
            divisor.neg();
            proof {
                lemma_mod32(0x1_0000_0000 - other.value_u());
            }
        }
        proof {
            assert(divisor.value_u() == abs_int(b_i));
            assert(abs_int(b_i) > 0);
        }
        let u: [i16; 16] = [
            self.parts[0] & 0x0F,
            self.parts[0] / 16,
            self.parts[1] & 0x0F,
            self.parts[1] / 16,
            self.parts[2] & 0x0F,
            self.parts[2] / 16,
            self.parts[3] & 0x0F,
            self.parts[3] / 16,
            0,
            0,
            0,
            0,
            0,
            0,
            0,
            0,
        ];
        let v: [i16; 8] = [
            divisor.parts[0] & 0x0F,
            divisor.parts[0] / 16,
            divisor.parts[1] & 0x0F,
            divisor.parts[1] / 16,
            divisor.parts[2] & 0x0F,
            divisor.parts[2] / 16,
            divisor.parts[3] & 0x0F,
            divisor.parts[3] / 16,
        ];
        proof {
            lemma_mask15(self.parts@[0]);
            lemma_mask15(self.parts@[1]);
            lemma_mask15(self.parts@[2]);
            lemma_mask15(self.parts@[3]);
            lemma_mask15(divisor.parts@[0]);
            lemma_mask15(divisor.parts@[1]);
            lemma_mask15(divisor.parts@[2]);
            lemma_mask15(divisor.parts@[3]);
            assert(nibbles(u@));
            assert(nibbles(v@));
            lemma_nibbles_value(
                u@,
                0,
                self.parts@[0] as int,
                self.parts@[1] as int,
                self.parts@[2] as int,
                self.parts@[3] as int,
            );
            assert(u@.skip(0) =~= u@);
            assert(val16(u@) == abs_int(a_i));
            lemma_nibbles_value(
                v@,
                0,
                divisor.parts@[0] as int,
                divisor.parts@[1] as int,
                divisor.parts@[2] as int,
                divisor.parts@[3] as int,
            );
            assert(v@.skip(0) =~= v@);
            assert(val16(v@) == abs_int(b_i));
        }
        let q = div_u4(u, v);
        let ghost quo = abs_int(a_i) / abs_int(b_i);
        proof {
            assert(val16(q@) == quo);
            lemma_pow16_values();
            vstd::arithmetic::div_mod::lemma_div_nonincreasing(abs_int(a_i), abs_int(b_i));
            assert(0 <= quo <= 0x8000_0000);
            assert forall|i: int| 8 <= i < 16 implies q@[i] == 0 by {
                lemma_val16_high_zero(q@, 8, i);
            }
        }
        self.parts = [q[0] + q[1] * 16, q[2] + q[3] * 16, q[4] + q[5] * 16, q[6] + q[7] * 16];
        proof {
            lemma_nibbles_value(
                q@,
                0,
                self.parts@[0] as int,
                self.parts@[1] as int,
                self.parts@[2] as int,
                self.parts@[3] as int,
            );
            assert(q@.skip(0) =~= q@);
            assert(self.wf());
            assert(self.value_u() == quo);
        }
        if negative {
            self.neg();
            proof {
                lemma_mod32(0x1_0000_0000 - quo);
                lemma_mod32(-quo);
                assert(self.value_u() == (-quo) % 0x1_0000_0000);
            }
        } else {
            proof {
                lemma_mod32(quo);
            }
        }
        proof {
            assert(self.value_u() == trunc_div(a_i, b_i) % 0x1_0000_0000);
            if !(a_i == -0x8000_0000 && b_i == -1) {
                // away from the one wrapping case the quotient is in the
                // 32-bit signed range
                if abs_int(b_i) == 1 {
                    assert(quo == abs_int(a_i)) by {
                        vstd::arithmetic::div_mod::lemma_div_basics(abs_int(a_i));
                    }
                } else {
                    vstd::arithmetic::div_mod::lemma_div_is_ordered_by_denominator(
                        abs_int(a_i),
                        2,
                        abs_int(b_i),
                    );
                    assert(quo <= abs_int(a_i) / 2);
                }
                assert(-0x8000_0000 <= trunc_div(a_i, b_i) < 0x8000_0000);
                lemma_mod32(trunc_div(a_i, b_i));
                assert(final(self).value_i() == trunc_div(a_i, b_i));
            }
        }
        Ok(())
    }
}

} // verus!
