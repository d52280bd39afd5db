//! The Q16.16 fixed-point number: one 32-bit limb vector read as a signed
//! 16-bit integer part over an unsigned 16-bit fraction, with scaled
//! multiplication and division built on the integer primitives.

use vstd::prelude::*;
use crate::errors::DivisionByZero;
use crate::divide::{abs_int, div_u4, lemma_mask15, trunc_div};
use crate::int32::{lemma_mod32, lemma_neg_mod32, Int32};
use crate::nibbles::{nibbles, pow16, val16};
use crate::nibbles::{
    lemma_pow16_values,
    lemma_val16_pair,
    lemma_val16_split,
    lemma_val16_take_mod,
    lemma_val16_zero,
};
use vstd::std_specs::convert::FromSpec;

verus! {

/// A fixed-point value: limbs 2 and 3 of the underlying 32-bit quantity
/// form the signed integer part, limbs 0 and 1 the fraction. The whole
/// container follows the same two's-complement and wraparound rules as the
/// plain 32-bit integer.
#[derive(Debug)]
pub struct Number(pub Int32);

impl Number {
    /// The underlying limb vector is normalized.
    pub open spec fn wf(self) -> bool {
        self.0.wf()
    }

    /// The raw 32-bit pattern read as a signed value; the fixed-point
    /// number it denotes is this divided by 2^16.
    pub open spec fn raw_i(self) -> int {
        self.0.value_i()
    }

    /// The raw 32-bit pattern read as an unsigned value.
    pub open spec fn raw_u(self) -> int {
        self.0.value_u()
    }
}

impl PartialEq for Number {
    fn eq(&self, other: &Number) -> (r: bool) {
        self.0 == other.0
    }
}

impl vstd::std_specs::cmp::PartialEqSpecImpl for Number {
    open spec fn obeys_eq_spec() -> bool {
        true
    }

    open spec fn eq_spec(&self, other: &Number) -> bool {
        &&& self.0.parts@[0] == other.0.parts@[0]
        &&& self.0.parts@[1] == other.0.parts@[1]
        &&& self.0.parts@[2] == other.0.parts@[2]
        &&& self.0.parts@[3] == other.0.parts@[3]
    }
}

impl vstd::std_specs::convert::FromSpecImpl<i16> for Number {
    open spec fn obeys_from_spec() -> bool {
        true
    }

    open spec fn from_spec(n: i16) -> Number {
        Number(
            Int32 {
                parts: [
                    0,
                    0,
                    (((n as i32) >> 0) & 0xFF) as i16,
                    (((n as i32) >> 8) & 0xFF) as i16,
                ],
            },
        )
    }
}

impl From<i16> for Number {
    /// A small integer becomes the fixed-point value with that integer
    /// part and a zero fraction: the value scaled into the high limb pair.
    fn from(n: i16) -> Self {
        Number(
            Int32 {
                parts: [
                    0,
                    0,
                    (((n as i32) >> 0) & 0xFF) as i16,
                    (((n as i32) >> 8) & 0xFF) as i16,
                ],
            },
        )
    }
}

/// Scaling into the integer part is exact: the raw pattern denotes the
/// small integer times 2^16.
pub proof fn lemma_from_small_int(n: i16)
    ensures
        Number::from_spec(n).wf(),
        Number::from_spec(n).raw_i() == n * 0x1_0000,
{
    let b2 = (((n as i32) >> 0) & 0xFF) as i16;
    let b3 = (((n as i32) >> 8) & 0xFF) as i16;
    assert(0 <= (((n as i32) >> 0) & 0xFF) as i16 <= 0xFF && 0 <= (((n as i32) >> 8) & 0xFF)
        as i16 <= 0xFF) by (bit_vector);
    assert((((n as i32) >> 0) & 0xFF) as i16 + 0x100 * ((((n as i32) >> 8) & 0xFF) as i16) == if n
        >= 0 {
        n as int
    } else {
        n + 0x1_0000
    }) by (bit_vector);
    assert(Number::from_spec(n).raw_u() == 0x1_0000 * (b2 + 0x100 * b3));
}

impl Number {
    /// Fixed-point addition is plain wraparound addition of the raw
    /// patterns: both operands carry the same scale.
    pub fn add(&mut self, other: &Self)
        requires
            old(self).wf(),
            other.wf(),
        ensures
            final(self).wf(),
            final(self).raw_u() == (old(self).raw_u() + other.raw_u()) % 0x1_0000_0000,
    {
        self.0.add(&other.0);
    }

    /// Fixed-point subtraction is plain wraparound subtraction of the raw
    /// patterns.
    pub fn sub(&mut self, other: &Self)
        requires
            old(self).wf(),
            other.wf(),
        ensures
            final(self).wf(),
            final(self).raw_u() == (old(self).raw_u() - other.raw_u()) % 0x1_0000_0000,
    {
        self.0.sub(&other.0);
    }
}

/// An addend may be replaced modulo 2^32 under a sum taken modulo 2^32.
proof fn lemma_mod_subst(c: int, x: int, y: int)
    requires
        x % 0x1_0000_0000 == y % 0x1_0000_0000,
    ensures
        (c + x) % 0x1_0000_0000 == (c + y) % 0x1_0000_0000,
{
    vstd::arithmetic::div_mod::lemma_add_mod_noop_right(c, x, 0x1_0000_0000);
    vstd::arithmetic::div_mod::lemma_add_mod_noop_right(c, y, 0x1_0000_0000);
}

/// Reducing the left addend modulo 2^32 does not change a sum taken modulo
/// 2^32.
proof fn lemma_mod_add_left(a: int, b: int)
    ensures
        (a % 0x1_0000_0000 + b) % 0x1_0000_0000 == (a + b) % 0x1_0000_0000,
{
    let m = 0x1_0000_0000int;
    vstd::arithmetic::div_mod::lemma_mod_twice(a, m);
    lemma_mod_subst(b, a % m, a);
    assert(b + a % m == a % m + b && b + a == a + b);
}

/// A signed 16-bit half, read from its unsigned 32-bit embedding, keeps
/// its products modulo 2^32.
proof fn lemma_half_product_mod(hm: int, h: int, y: int)
    requires
        hm == h + if h < 0 {
            0x1_0000_0000int
        } else {
            0int
        },
    ensures
        (hm * y) % 0x1_0000_0000 == (h * y) % 0x1_0000_0000,
{
    let m = 0x1_0000_0000int;
    let s: int = if h < 0 {
        1
    } else {
        0
    };
    assert(hm * y == h * y + m * (s * y)) by (nonlinear_arith)
        requires
            hm == h + s * m,
    ;
    vstd::arithmetic::div_mod::lemma_mod_multiples_vanish(s * y, h * y, m);
}

impl Number {
    /// Fixed-point multiplication: each operand splits into its
    /// sign-extended integer part and its fraction, the four cross
    /// products are formed with the wraparound integer multiply, and they
    /// recombine with the fraction-by-fraction product shifted down and
    /// the integer-by-integer product shifted up. The result is the full
    /// product arithmetically shifted down sixteen bits, modulo 2^32.
    #[verifier::rlimit(60)]
    pub fn mul(&mut self, other: &Self)
        requires
            old(self).wf(),
            other.wf(),
        ensures
            final(self).wf(),
            final(self).raw_u() == ((old(self).raw_i() * other.raw_i()) / 0x1_0000)
                % 0x1_0000_0000,
    {
        let ghost m = 0x1_0000_0000int;
        let ghost a_i = self.raw_i();
        let ghost b_i = other.raw_i();
        let ghost ah = self.0.parts@[2] + 0x100 * self.0.parts@[3] - (if self.0.parts@[3] >= 0x80 {
            0x1_0000int
        } else {
            0int
        });
        let ghost al = self.0.parts@[0] + 0x100 * self.0.parts@[1];
        let ghost bh = other.0.parts@[2] + 0x100 * other.0.parts@[3] - (if other.0.parts@[3]
            >= 0x80 {
            0x1_0000int
        } else {
            0int
        });
        let ghost bl = other.0.parts@[0] + 0x100 * other.0.parts@[1];
        proof {
            assert(a_i == ah * 0x1_0000 + al) by (nonlinear_arith)
                requires
                    a_i == if self.0.value_u() < 0x8000_0000 {
                        self.0.value_u()
                    } else {
                        self.0.value_u() - 0x1_0000_0000
                    },
                    self.0.value_u() == al + 0x1_0000 * (self.0.parts@[2] + 0x100
                        * self.0.parts@[3]),
                    al == self.0.parts@[0] + 0x100 * self.0.parts@[1],
                    ah == self.0.parts@[2] + 0x100 * self.0.parts@[3] - (if self.0.parts@[3]
                        >= 0x80 {
                        0x1_0000int
                    } else {
                        0int
                    }),
                    0 <= self.0.parts@[0] <= 0xFF,
                    0 <= self.0.parts@[1] <= 0xFF,
                    0 <= self.0.parts@[2] <= 0xFF,
                    0 <= self.0.parts@[3] <= 0xFF,
            ;
            assert(b_i == bh * 0x1_0000 + bl) by (nonlinear_arith)
                requires
                    b_i == if other.0.value_u() < 0x8000_0000 {
                        other.0.value_u()
                    } else {
                        other.0.value_u() - 0x1_0000_0000
                    },
                    other.0.value_u() == bl + 0x1_0000 * (other.0.parts@[2] + 0x100
                        * other.0.parts@[3]),
                    bl == other.0.parts@[0] + 0x100 * other.0.parts@[1],
                    bh == other.0.parts@[2] + 0x100 * other.0.parts@[3] - (if other.0.parts@[3]
                        >= 0x80 {
                        0x1_0000int
                    } else {
                        0int
                    }),
                    0 <= other.0.parts@[0] <= 0xFF,
                    0 <= other.0.parts@[1] <= 0xFF,
                    0 <= other.0.parts@[2] <= 0xFF,
                    0 <= other.0.parts@[3] <= 0xFF,
            ;
        }
        let mut decdec = Int32 {
            parts: if self.0.parts[3] < 0x80 {
                [self.0.parts[2], self.0.parts[3], 0, 0]
            } else {
                [self.0.parts[2], self.0.parts[3], 0xFF, 0xFF]
            },
        };
        let other_dec = Int32 {
            parts: if other.0.parts[3] < 0x80 {
                [other.0.parts[2], other.0.parts[3], 0, 0]
            } else {
                [other.0.parts[2], other.0.parts[3], 0xFF, 0xFF]
            },
        };
        let ghost ahm = decdec.value_u();
        let ghost bhm = other_dec.value_u();
        proof {
            assert(ahm == ah + if ah < 0 {
                0x1_0000_0000int
            } else {
                0int
            });
            assert(bhm == bh + if bh < 0 {
                0x1_0000_0000int
            } else {
                0int
            });
        }
        decdec.mul(&other_dec);
        let mut decfrac = Int32 {
            parts: if self.0.parts[3] < 0x80 {
                [self.0.parts[2], self.0.parts[3], 0, 0]
            } else {
                [self.0.parts[2], self.0.parts[3], 0xFF, 0xFF]
            },
        };
        decfrac.mul(&Int32 { parts: [other.0.parts[0], other.0.parts[1], 0, 0] });
        let mut fracdec = Int32 { parts: [self.0.parts[0], self.0.parts[1], 0, 0] };
        fracdec.mul(&other_dec);
        let mut fracfrac = Int32 { parts: [self.0.parts[0], self.0.parts[1], 0, 0] };
        fracfrac.mul(&Int32 { parts: [other.0.parts[0], other.0.parts[1], 0, 0] });
        proof {
            // each cross product, wrapped, is congruent to the exact one
            vstd::arithmetic::div_mod::lemma_mod_twice(ahm * bhm, m);
            lemma_half_product_mod(ahm, ah, bhm);
            vstd::arithmetic::mul::lemma_mul_is_commutative(ah, bhm);
            vstd::arithmetic::mul::lemma_mul_is_commutative(bhm, ah);
            lemma_half_product_mod(bhm, bh, ah);
            vstd::arithmetic::mul::lemma_mul_is_commutative(bh, ah);
            assert(decdec.value_u() == (ah * bh) % m);
            vstd::arithmetic::div_mod::lemma_mod_twice(ahm * bl, m);
            lemma_half_product_mod(ahm, ah, bl);
            assert(decfrac.value_u() == (ah * bl) % m);
            vstd::arithmetic::div_mod::lemma_mod_twice(al * bhm, m);
            vstd::arithmetic::mul::lemma_mul_is_commutative(al, bhm);
            lemma_half_product_mod(bhm, bh, al);
            vstd::arithmetic::mul::lemma_mul_is_commutative(bh, al);
            assert(fracdec.value_u() == (al * bh) % m);
            vstd::arithmetic::mul::lemma_mul_nonnegative(al, bl);
            assert(al * bl < m) by {
                if al > 0 && bl > 0 {
                    vstd::arithmetic::mul::lemma_mul_strict_upper_bound(al, 0x1_0000, bl, 0x1_0000);
                } else {
                    vstd::arithmetic::mul::lemma_mul_by_zero_is_zero(al);
                    vstd::arithmetic::mul::lemma_mul_by_zero_is_zero(bl);
                }
            }
            vstd::arithmetic::div_mod::lemma_small_mod((al * bl) as nat, 0x1_0000_0000nat);
            assert(fracfrac.value_u() == al * bl);
        }
        let mut r = Int32 { parts: [fracfrac.parts[2], fracfrac.parts[3], 0, 0] };
        proof {
            // the high limb pair of the fraction product is its value
            // shifted down sixteen bits
            vstd::arithmetic::div_mod::lemma_fundamental_div_mod_converse(
                fracfrac.value_u(),
                0x1_0000,
                fracfrac.parts@[2] + 0x100 * fracfrac.parts@[3],
                fracfrac.parts@[0] + 0x100 * fracfrac.parts@[1],
            );
            assert(r.value_u() == (al * bl) / 0x1_0000);
        }
        r.add(&decfrac);
        r.add(&fracdec);
        let dd_low = Int32 { parts: [0, 0, decdec.parts[0], decdec.parts[1]] };
        proof {
            // the integer product contributes only its low sixteen bits,
            // shifted up
            vstd::arithmetic::div_mod::lemma_fundamental_div_mod_converse(
                decdec.value_u(),
                0x1_0000,
                decdec.parts@[2] + 0x100 * decdec.parts@[3],
                decdec.parts@[0] + 0x100 * decdec.parts@[1],
            );
            assert(dd_low.value_u() == 0x1_0000 * (((ah * bh) % m) % 0x1_0000));
        }
        r.add(&dd_low);
        self.0.parts = r.parts;
        proof {
            let f0 = (al * bl) / 0x1_0000;
            // collapse the chained wraparound additions into one sum
            lemma_mod_add_left(f0 + decfrac.value_u(), fracdec.value_u());
            lemma_mod_add_left(f0 + decfrac.value_u() + fracdec.value_u(), dd_low.value_u());
            assert(self.0.value_u() == (f0 + decfrac.value_u() + fracdec.value_u()
                + dd_low.value_u()) % m);
            // replace each wrapped addend by its exact value
            vstd::arithmetic::div_mod::lemma_mod_twice(ah * bl, m);
            lemma_mod_subst(f0 + fracdec.value_u() + dd_low.value_u(), (ah * bl) % m, ah * bl);
            vstd::arithmetic::div_mod::lemma_mod_twice(al * bh, m);
            lemma_mod_subst(f0 + ah * bl + dd_low.value_u(), (al * bh) % m, al * bh);
            assert(m == 0x1_0000 * 0x1_0000);
            vstd::arithmetic::div_mod::lemma_mod_mod(ah * bh, 0x1_0000, 0x1_0000);
            assert(((ah * bh) % m) % 0x1_0000 == (ah * bh) % 0x1_0000);
            vstd::arithmetic::div_mod::lemma_fundamental_div_mod(ah * bh, 0x1_0000);
            let kd = (ah * bh) / 0x1_0000;
            assert(0x1_0000 * ((ah * bh) % 0x1_0000) == 0x1_0000 * (ah * bh) - m * kd)
                by (nonlinear_arith)
                requires
                    ah * bh == 0x1_0000 * kd + (ah * bh) % 0x1_0000,
                    m == 0x1_0000 * 0x1_0000,
            ;
            vstd::arithmetic::div_mod::lemma_mod_multiples_vanish(
                -kd,
                0x1_0000 * (ah * bh),
                m,
            );
            assert((0x1_0000 * (ah * bh) - m * kd) % m == (0x1_0000 * (ah * bh)) % m)
                by (nonlinear_arith)
                requires
                    (m * (-kd) + 0x1_0000 * (ah * bh)) % m == (0x1_0000 * (ah * bh)) % m,
            ;
            lemma_mod_subst(
                f0 + ah * bl + al * bh,
                0x1_0000 * ((ah * bh) % 0x1_0000),
                0x1_0000 * (ah * bh),
            );
            // the assembled sum is exactly the product shifted down
            let kk = (ah * bh) * 0x1_0000 + ah * bl + al * bh;
            assert(0 <= al * bl) by (nonlinear_arith)
                requires
                    0 <= al && 0 <= bl,
            ;
            vstd::arithmetic::div_mod::lemma_hoist_over_denominator(al * bl, kk, 0x1_0000nat);
            assert(al * bl + kk * 0x1_0000 == a_i * b_i) by (nonlinear_arith)
                requires
                    a_i == ah * 0x1_0000 + al,
                    b_i == bh * 0x1_0000 + bl,
                    kk == (ah * bh) * 0x1_0000 + ah * bl + al * bh,
            ;
            assert(f0 + ah * bl + al * bh + 0x1_0000 * (ah * bh) == (a_i * b_i) / 0x1_0000)
                by (nonlinear_arith)
                requires
                    f0 + kk == (al * bl + kk * 0x1_0000) / 0x1_0000,
                    al * bl + kk * 0x1_0000 == a_i * b_i,
                    f0 == (al * bl) / 0x1_0000,
                    kk == (ah * bh) * 0x1_0000 + ah * bl + al * bh,
            ;
        }
    }
}

impl Number {
    /// Fixed-point division: the dividend's nibbles enter the long
    /// division shifted up by sixteen bits against the divisor's nibbles,
    /// reproducing `(a << 16) / b` with truncation toward zero and 32-bit
    /// wraparound. Fails, leaving the receiver untouched, exactly when the
    /// divisor is the zero value.
    #[verifier::rlimit(80)]
    pub fn div(&mut self, other: &Self) -> (r: Result<(), DivisionByZero>)
        requires
            old(self).wf(),
            other.wf(),
        ensures
            final(self).wf(),
            other.raw_u() == 0 ==> r is Err && *final(self) == *old(self),
            other.raw_u() != 0 ==> r is Ok && final(self).raw_u() == trunc_div(
                old(self).raw_i() * 0x1_0000,
                other.raw_i(),
            ) % 0x1_0000_0000,
    {
        if other.0.parts[0] == 0 && other.0.parts[1] == 0 && other.0.parts[2] == 0
            && other.0.parts[3] == 0 {
            return Err(DivisionByZero);
        }
        let ghost a_i = old(self).raw_i();
        let ghost b_i = other.raw_i();
        let negative = (self.0.parts[3] >= 0x80) ^ (other.0.parts[3] >= 0x80);
        if self.0.parts[3] >= 0x80 {
            self.0.neg();
            proof {
                lemma_mod32(0x1_0000_0000 - old(self).raw_u());
            }
        }
        proof {
            assert(self.0.value_u() == abs_int(a_i));
        }
        let mut divisor = Int32 { parts: other.0.parts };
        if divisor.parts[3] >= 0x80 {
            divisor.neg();
            proof {
                lemma_mod32(0x1_0000_0000 - other.raw_u());
            }
        }
        proof {
            assert(divisor.value_u() == abs_int(b_i));
            assert(abs_int(b_i) > 0);
        }
        let u: [i16; 16] = [
            0,
            0,
            0,
            0,
            self.0.parts[0] & 0x0F,
            self.0.parts[0] / 16,
            self.0.parts[1] & 0x0F,
            self.0.parts[1] / 16,
            self.0.parts[2] & 0x0F,
            self.0.parts[2] / 16,
            self.0.parts[3] & 0x0F,
            self.0.parts[3] / 16,
            0,
            0,
            0,
            0,
        ];
        let v: [i16; 8] = [
            divisor.parts[0] & 0x0F,
            divisor.parts[0] / 16,
            divisor.parts[1] & 0x0F,
            divisor.parts[1] / 16,
            divisor.parts[2] & 0x0F,
            divisor.parts[2] / 16,
            divisor.parts[3] & 0x0F,
            divisor.parts[3] / 16,
        ];
        proof {
            lemma_mask15(self.0.parts@[0]);
            lemma_mask15(self.0.parts@[1]);
            lemma_mask15(self.0.parts@[2]);
            lemma_mask15(self.0.parts@[3]);
            lemma_mask15(divisor.parts@[0]);
            lemma_mask15(divisor.parts@[1]);
            lemma_mask15(divisor.parts@[2]);
            lemma_mask15(divisor.parts@[3]);
            assert(nibbles(u@));
            assert(nibbles(v@));
            lemma_pow16_values();
            // the four zero nibbles below the dividend shift it up sixteen
            // bits
            crate::divide::lemma_nibbles_value(
                u@,
                4,
                self.0.parts@[0] as int,
                self.0.parts@[1] as int,
                self.0.parts@[2] as int,
                self.0.parts@[3] as int,
            );
            lemma_val16_split(u@, 4);
            assert(nibbles(u@.take(4)));
            assert(forall|i: int| 0 <= i < u@.take(4).len() ==> #[trigger] u@.take(4)[i] == 0);
            lemma_val16_zero(u@.take(4));
            assert(val16(u@) == pow16(4) * (abs_int(a_i)));
            crate::divide::lemma_nibbles_value(
                v@,
                0,
                divisor.parts@[0] as int,
                divisor.parts@[1] as int,
                divisor.parts@[2] as int,
                divisor.parts@[3] as int,
            );
            assert(v@.skip(0) =~= v@);
            assert(val16(v@) == abs_int(b_i));
        }
        let q = div_u4(u, v);
        let ghost quo = (abs_int(a_i) * 0x1_0000) / abs_int(b_i);
        proof {
            vstd::arithmetic::mul::lemma_mul_is_commutative(pow16(4), abs_int(a_i));
            assert(val16(q@) == quo);
        }
        self.0.parts = [q[0] + q[1] * 16, q[2] + q[3] * 16, q[4] + q[5] * 16, q[6] + q[7] * 16];
        proof {
            // the low eight quotient nibbles are the quotient modulo 2^32
            lemma_val16_take_mod(q@, 8);
            lemma_pow16_values();
            let s8 = q@.take(8);
            lemma_val16_pair(s8, 0);
            lemma_val16_pair(s8, 2);
            lemma_val16_pair(s8, 4);
            lemma_val16_pair(s8, 6);
            assert(s8.skip(8) =~= Seq::<i16>::empty());
            assert(s8.skip(0) =~= s8);
            assert(self.0.value_u() == val16(s8));
            assert(self.0.value_u() == quo % 0x1_0000_0000);
        }
        if negative {
            self.0.neg();
        }
        proof {
            vstd::arithmetic::div_mod::lemma_mod_bound(quo, 0x1_0000_0000);
            assert(abs_int(a_i * 0x1_0000) == abs_int(a_i) * 0x1_0000);
            vstd::arithmetic::mul::lemma_mul_is_commutative(abs_int(a_i), 0x1_0000);
            if negative {
                lemma_mod32(0x1_0000_0000 - quo % 0x1_0000_0000);
                vstd::arithmetic::div_mod::lemma_mod_twice(quo, 0x1_0000_0000);
                lemma_neg_mod32(quo);
                assert(self.0.value_u() == (-quo) % 0x1_0000_0000);
                assert(trunc_div(a_i * 0x1_0000, b_i) == -quo);
            } else {
                assert(trunc_div(a_i * 0x1_0000, b_i) == quo);
                vstd::arithmetic::div_mod::lemma_mod_twice(quo, 0x1_0000_0000);
            }
        }
        Ok(())
    }
}

} // verus!
