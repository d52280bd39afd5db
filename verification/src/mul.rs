//! Nibble-decomposed schoolbook multiplication with deliberate truncation
//! to 32 bits: the wraparound multiply.

use vstd::prelude::*;
use crate::int32::{lemma_mod32, Int32};
use crate::nibbles::{nibbles, pow16, val16};
use crate::nibbles::{
    lemma_pow16_adds,
    lemma_pow16_pos,
    lemma_pow16_values,
    lemma_val16_split,
    lemma_val16_take_succ,
    lemma_val16_update,
    lemma_val16_zero,
};
use crate::divide::{abs_int, lemma_mask15};

verus! {

/// The truncated outer product accumulated after the first `i` nibbles of
/// the left operand: each contributes to positions up to 7, higher cross
/// terms being discarded.
spec fn partial_prod(xn: Seq<i16>, yn: Seq<i16>, i: int) -> int
    decreases i,
{
    if i <= 0 {
        0
    } else {
        partial_prod(xn, yn, i - 1) + xn[i - 1] * pow16((i - 1) as nat) * val16(
            yn.take(8 - (i - 1)),
        )
    }
}

/// Discarding the cross terms above position 7 loses only multiples of
/// 16^8: the accumulated product equals the full product modulo 16^8.
proof fn lemma_partial_prod_mod(xn: Seq<i16>, yn: Seq<i16>, i: int)
    requires
        xn.len() == 8,
        yn.len() == 8,
        nibbles(xn),
        nibbles(yn),
        0 <= i <= 8,
    ensures
        partial_prod(xn, yn, i) % pow16(8) == (val16(xn.take(i)) * val16(yn)) % pow16(8),
    decreases i,
{
    let p8 = pow16(8);
    lemma_pow16_pos(8);
    if i == 0 {
        assert(val16(xn.take(0)) == 0);
        vstd::arithmetic::mul::lemma_mul_by_zero_is_zero(val16(yn));
    } else {
        lemma_partial_prod_mod(xn, yn, i - 1);
        let pi = pow16((i - 1) as nat);
        let d = xn[i - 1] as int;
        lemma_val16_take_succ(xn, i - 1);
        assert(val16(xn.take(i)) == val16(xn.take(i - 1)) + pi * d);
        lemma_val16_split(yn, 8 - (i - 1));
        let ylo = val16(yn.take(8 - (i - 1)));
        let yhi = val16(yn.skip(8 - (i - 1)));
        assert(val16(yn) == ylo + pow16((8 - (i - 1)) as nat) * yhi);
        lemma_pow16_adds((i - 1) as nat, (8 - (i - 1)) as nat);
        assert(pi * pow16((8 - (i - 1)) as nat) == p8);
        // the new addend differs from its full counterpart by a multiple
        // of 16^8
        let full_add = d * pi * val16(yn);
        let trunc_add = d * pi * ylo;
        assert(full_add == trunc_add + (d * yhi) * p8) by (nonlinear_arith)
            requires
                val16(yn) == ylo + pow16((8 - (i - 1)) as nat) * yhi,
                pi * pow16((8 - (i - 1)) as nat) == p8,
                full_add == d * pi * val16(yn),
                trunc_add == d * pi * ylo,
        ;
        assert(val16(xn.take(i)) * val16(yn) == val16(xn.take(i - 1)) * val16(yn) + full_add)
            by (nonlinear_arith)
            requires
                val16(xn.take(i)) == val16(xn.take(i - 1)) + pi * d,
                full_add == d * pi * val16(yn),
        ;
        assert(xn[i - 1] * pow16((i - 1) as nat) * val16(yn.take(8 - (i - 1))) == trunc_add);
        // both sides advance by amounts equal modulo 16^8
        let a = partial_prod(xn, yn, i - 1);
        let b = val16(xn.take(i - 1)) * val16(yn);
        vstd::arithmetic::div_mod::lemma_add_mod_noop(a, trunc_add, p8);
        vstd::arithmetic::div_mod::lemma_add_mod_noop(b, full_add, p8);
        vstd::arithmetic::div_mod::lemma_mod_multiples_vanish(d * yhi, trunc_add, p8);
        vstd::arithmetic::mul::lemma_mul_is_commutative(d * yhi, p8);
        assert((trunc_add + (d * yhi) * p8) % p8 == trunc_add % p8);
        assert((a + trunc_add) % p8 == (b + full_add) % p8);
    }
}


/// Split four byte limbs into eight nibbles, low nibble of each byte first.
fn to_nibbles(x: &Int32) -> (r: [i16; 8])
    requires
        x.wf(),
    ensures
        nibbles(r@),
        val16(r@) == x.value_u(),
{
    let r: [i16; 8] = [
        x.parts[0] & 0x0F,
        x.parts[0] / 16,
        x.parts[1] & 0x0F,
        x.parts[1] / 16,
        x.parts[2] & 0x0F,
        x.parts[2] / 16,
        x.parts[3] & 0x0F,
        x.parts[3] / 16,
    ];
    proof {
        lemma_mask15(x.parts@[0]);
        lemma_mask15(x.parts@[1]);
        lemma_mask15(x.parts@[2]);
        lemma_mask15(x.parts@[3]);
        crate::nibbles::lemma_val16_pair(r@, 0);
        crate::nibbles::lemma_val16_pair(r@, 2);
        crate::nibbles::lemma_val16_pair(r@, 4);
        crate::nibbles::lemma_val16_pair(r@, 6);
        assert(r@.skip(8) =~= Seq::<i16>::empty());
        assert(r@.skip(0) =~= r@);
        assert(nibbles(r@));
    }
    r
}

/// Renormalize the eight product slots into four byte limbs, carrying
/// upward pairwise and discarding the carry out of the top limb: the limbs
/// then hold the slots' value modulo 2^32.
fn assemble_limbs(acc: &[i16; 8]) -> (r: Int32)
    requires
        forall|k: int| 0 <= k < 8 ==> 0 <= #[trigger] acc@[k] <= 1800,
    ensures
        r.wf(),
        r.value_u() == val16(acc@) % 0x1_0000_0000,
{
    let c0 = acc[0] + acc[1] * 16;
    let r0 = c0 % 256;
    let c1 = c0 / 256 + acc[2] + acc[3] * 16;
    let r1 = c1 % 256;
    let c2 = c1 / 256 + acc[4] + acc[5] * 16;
    let r2 = c2 % 256;
    let c3 = c2 / 256 + acc[6] + acc[7] * 16;
    let r3 = c3 % 256;
    let r = Int32 { parts: [r0, r1, r2, r3] };
    proof {
        crate::nibbles::lemma_val16_pair(acc@, 0);
        crate::nibbles::lemma_val16_pair(acc@, 2);
        crate::nibbles::lemma_val16_pair(acc@, 4);
        crate::nibbles::lemma_val16_pair(acc@, 6);
        assert(acc@.skip(8) =~= Seq::<i16>::empty());
        assert(acc@.skip(0) =~= acc@);
        let m = val16(acc@);
        let k3 = c3 as int / 256;
        assert(m == r.value_u() + 0x1_0000_0000 * k3);
        assert(0 <= r.value_u() < 0x1_0000_0000);
        vstd::arithmetic::div_mod::lemma_fundamental_div_mod_converse(
            m,
            0x1_0000_0000,
            k3,
            r.value_u(),
        );
    }
    r
}

/// Applying the operands' combined sign to the magnitude product modulo
/// 2^32 yields the wrapped product of the unsigned readings.
proof fn lemma_apply_sign_mod(a_i: int, b_i: int, a_u: int, b_u: int)
    requires
        -0x8000_0000 <= a_i < 0x8000_0000,
        -0x8000_0000 <= b_i < 0x8000_0000,
        a_u == a_i + if a_i < 0 {
            0x1_0000_0000int
        } else {
            0int
        },
        b_u == b_i + if b_i < 0 {
            0x1_0000_0000int
        } else {
            0int
        },
    ensures
        ((a_i >= 0) != (b_i >= 0)) ==> (0x1_0000_0000 - (abs_int(a_i) * abs_int(b_i))
            % 0x1_0000_0000) % 0x1_0000_0000 == (a_u * b_u) % 0x1_0000_0000,
        ((a_i >= 0) == (b_i >= 0)) ==> (abs_int(a_i) * abs_int(b_i)) % 0x1_0000_0000 == (a_u
            * b_u) % 0x1_0000_0000,
{
    let m = 0x1_0000_0000int;
    let mag = abs_int(a_i) * abs_int(b_i);
    vstd::arithmetic::div_mod::lemma_mod_bound(mag, m);
    if (a_i >= 0) != (b_i >= 0) {
        assert(a_i * b_i == -mag) by (nonlinear_arith)
            requires
                (a_i >= 0) != (b_i >= 0),
                mag == abs_int(a_i) * abs_int(b_i),
        ;
        vstd::arithmetic::div_mod::lemma_fundamental_div_mod(mag, m);
        let q = mag / m;
        let r = mag % m;
        assert(m * (-q) + (-r) == -mag) by (nonlinear_arith)
            requires
                mag == m * q + r,
        ;
        vstd::arithmetic::div_mod::lemma_mod_multiples_vanish(-q, -r, m);
        assert((-mag) % m == (-r) % m);
        lemma_mod32(-r);
        lemma_mod32(m - r);
        assert((m - r) % m == (a_i * b_i) % m);
    } else {
        assert(a_i * b_i == mag) by (nonlinear_arith)
            requires
                (a_i >= 0) == (b_i >= 0),
                mag == abs_int(a_i) * abs_int(b_i),
        ;
    }
    let s1: int = if a_i < 0 {
        1
    } else {
        0
    };
    let s2: int = if b_i < 0 {
        1
    } else {
        0
    };
    assert(a_u * b_u == a_i * b_i + m * (s1 * b_i + s2 * a_i + s1 * s2 * m)) by (nonlinear_arith)
        requires
            m == 0x1_0000_0000,
            a_u == a_i + s1 * m,
            b_u == b_i + s2 * m,
    ;
    vstd::arithmetic::div_mod::lemma_mod_multiples_vanish(
        s1 * b_i + s2 * a_i + s1 * s2 * m,
        a_i * b_i,
        m,
    );
}

impl Int32 {
    /// Wraparound multiplication: the operands go to their magnitudes,
    /// their nibbles cross-multiply into an eight-slot accumulator that
    /// drops everything above the seventh position, the slots renormalize
    /// into four byte limbs, and the product takes the operands' combined
    /// sign. The result is the product modulo 2^32, exactly as the native
    /// wrapping multiply behaves.
    pub fn mul(&mut self, other: &Self)
        requires
            old(self).wf(),
            other.wf(),
        ensures
            final(self).wf(),
            final(self).value_u() == (old(self).value_u() * other.value_u()) % 0x1_0000_0000,
    {
        let ghost a_i = old(self).value_i();
        let ghost b_i = other.value_i();
        let ghost a_u = old(self).value_u();
        let ghost b_u = other.value_u();
        let negative = (self.parts[3] >= 0x80) ^ (other.parts[3] >= 0x80);
        if self.parts[3] >= 0x80 {
            self.neg();
            proof {
                lemma_mod32(0x1_0000_0000 - old(self).value_u());
            }
        }
        proof {
            assert(self.value_u() == abs_int(a_i));
        }
        let mut rhs = Int32 { parts: other.parts };
        if rhs.parts[3] >= 0x80 {
            rhs.neg();
            proof {
                lemma_mod32(0x1_0000_0000 - other.value_u());
            }
        }
        proof {
            assert(rhs.value_u() == abs_int(b_i));
        }
        let xn = to_nibbles(self);
        let yn = to_nibbles(&rhs);
        let mut acc: [i16; 8] = [0; 8];
        let mut i: usize = 0;
        proof {
            assert(forall|k: int| 0 <= k < acc@.len() ==> #[trigger] acc@[k] == 0);
            lemma_val16_zero(acc@);
        }
        while i < 8
            invariant
                0 <= i <= 8,
                nibbles(xn@),
                nibbles(yn@),
                acc@.len() == 8,
                forall|k: int| 0 <= k < 8 ==> 0 <= #[trigger] acc@[k] <= 225 * i,
                val16(acc@) == partial_prod(xn@, yn@, i as int),
            decreases 8 - i,
        {
            let mut jx: usize = 0;
            let x = xn[i];
            let ghost pi = pow16(i as nat);
            while jx < 8 - i
                invariant
                    0 <= i < 8,
                    0 <= jx <= 8 - i,
                    nibbles(xn@),
                    nibbles(yn@),
                    x == xn@[i as int],
                    pi == pow16(i as nat),
                    acc@.len() == 8,
                    forall|k: int|
                        0 <= k < 8 ==> 0 <= #[trigger] acc@[k] <= 225 * i + (if i <= k < i + jx {
                            225int
                        } else {
                            0int
                        }),
                    val16(acc@) == partial_prod(xn@, yn@, i as int) + x * pi * val16(
                        yn@.take(jx as int),
                    ),
                decreases 8 - i - jx,
            {
                let ghost acc_old = acc@;
                let ghost y = yn@[jx as int] as int;
                proof {
                    assert(0 <= (x as int) * y <= 225) by (nonlinear_arith)
                        requires
                            0 <= x < 16 && 0 <= y < 16,
                    ;
                }
                acc[i + jx] = acc[i + jx] + x * yn[jx];
                proof {
                    let k = i as int + jx as int;
                    lemma_val16_update(acc_old, k, acc@[k]);
                    lemma_pow16_adds(i as nat, jx as nat);
                    lemma_val16_take_succ(yn@, jx as int);
                    let pj = pow16(jx as nat);
                    assert(val16(acc@) == val16(acc_old) + pow16((i + jx) as nat) * ((x as int)
                        * y));
                    assert(x * pi * val16(yn@.take(jx as int)) + (pi * pj) * ((x as int) * y) == x
                        * pi * val16(yn@.take(jx as int + 1))) by (nonlinear_arith)
                        requires
                            val16(yn@.take(jx as int + 1)) == val16(yn@.take(jx as int)) + pj * y,
                    ;
                }
                jx = jx + 1;
            }
            proof {
                assert(partial_prod(xn@, yn@, i as int + 1) == partial_prod(xn@, yn@, i as int) + x
                    * pi * val16(yn@.take(8 - i as int)));
            }
            i = i + 1;
        }
        let assembled = assemble_limbs(&acc);
        *self = assembled;
        proof {
            lemma_partial_prod_mod(xn@, yn@, 8);
            assert(xn@.take(8) =~= xn@);
            lemma_pow16_values();
            assert(self.value_u() == (abs_int(a_i) * abs_int(b_i)) % 0x1_0000_0000);
        }
        let ghost mag = (abs_int(a_i) * abs_int(b_i)) % 0x1_0000_0000;
        if negative {
            self.neg();
        }
        proof {
            vstd::arithmetic::div_mod::lemma_mod_bound(abs_int(a_i) * abs_int(b_i), 0x1_0000_0000);
            lemma_apply_sign_mod(a_i, b_i, a_u, b_u);
            if negative {
                assert(self.value_u() == (0x1_0000_0000 - mag) % 0x1_0000_0000);
                assert(self.value_u() == (a_u * b_u) % 0x1_0000_0000);
            } else {
                lemma_mod32(mag);
                assert(self.value_u() == (a_u * b_u) % 0x1_0000_0000);
            }
        }
    }
}

/// Multiplication agrees with the native wrapping multiplication of `i32`.
pub proof fn lemma_mul_matches_native(a: Int32, b: Int32, c: Int32)
    requires
        a.wf(),
        b.wf(),
        c.wf(),
        c.value_u() == (a.value_u() * b.value_u()) % 0x1_0000_0000,
    ensures
        c.value_i() == vstd::wrapping::i32_specs::wrapping_mul(
            a.value_i() as i32,
            b.value_i() as i32,
        ),
{
    let m = 0x1_0000_0000int;
    let x = a.value_i();
    let y = b.value_i();
    let s1: int = if x < 0 {
        1
    } else {
        0
    };
    let s2: int = if y < 0 {
        1
    } else {
        0
    };
    assert(a.value_u() * b.value_u() == x * y + m * (s1 * y + s2 * x + s1 * s2 * m))
        by (nonlinear_arith)
        requires
            m == 0x1_0000_0000,
            a.value_u() == x + s1 * m,
            b.value_u() == y + s2 * m,
    ;
    vstd::arithmetic::div_mod::lemma_mod_multiples_vanish(s1 * y + s2 * x + s1 * s2 * m, x * y, m);
    vstd::arithmetic::div_mod::lemma_mod_bound(x * y, m);
    assert(c.value_u() == (x * y) % m);
}

} // verus!
