//! The 32-bit limb-vector integer: conversion to and from the native `i32`,
//! two's-complement negation, and carry-propagating addition and subtraction.

use vstd::prelude::*;
use vstd::std_specs::convert::FromSpec;

verus! {

/// A 32-bit two's-complement integer held as four base-256 limbs, limb 0
/// least-significant. Each limb sits in an `i16`, wide enough to hold a
/// transient carry, but is normalized to `0 ..= 0xFF` on entry to and exit
/// from every public operation.
#[derive(Debug)]
pub struct Int32 {
    pub parts: [i16; 4],
}

impl Int32 {
    /// Every limb is a normalized byte.
    pub open spec fn wf(self) -> bool {
        &&& 0 <= self.parts@[0] <= 0xFF
        &&& 0 <= self.parts@[1] <= 0xFF
        &&& 0 <= self.parts@[2] <= 0xFF
        &&& 0 <= self.parts@[3] <= 0xFF
    }

    /// The limbs read as an unsigned base-256 number, in `0 .. 2^32` when
    /// the value is well formed.
    pub open spec fn value_u(self) -> int {
        self.parts@[0] + 0x100 * self.parts@[1] + 0x1_0000 * self.parts@[2]
            + 0x100_0000 * self.parts@[3]
    }

    /// The limbs read as a two's-complement signed number: limb 3's top bit
    /// is the sign.
    pub open spec fn value_i(self) -> int {
        if self.value_u() < 0x8000_0000 {
            self.value_u()
        } else {
            self.value_u() - 0x1_0000_0000
        }
    }
}

impl PartialEq for Int32 {
    fn eq(&self, other: &Int32) -> (r: bool) {
        self.parts[0] == other.parts[0] && self.parts[1] == other.parts[1]
            && self.parts[2] == other.parts[2] && self.parts[3] == other.parts[3]
    }
}

impl vstd::std_specs::cmp::PartialEqSpecImpl for Int32 {
    open spec fn obeys_eq_spec() -> bool {
        true
    }

    open spec fn eq_spec(&self, other: &Int32) -> bool {
        &&& self.parts@[0] == other.parts@[0]
        &&& self.parts@[1] == other.parts@[1]
        &&& self.parts@[2] == other.parts@[2]
        &&& self.parts@[3] == other.parts@[3]
    }
}

impl vstd::std_specs::convert::FromSpecImpl<i32> for Int32 {
    open spec fn obeys_from_spec() -> bool {
        true
    }

    open spec fn from_spec(n: i32) -> Int32 {
        Int32 {
            parts: [
                ((n >> 0) & 0xFF) as i16,
                ((n >> 8) & 0xFF) as i16,
                ((n >> 16) & 0xFF) as i16,
                ((n >> 24) & 0xFF) as i16,
            ],
        }
    }
}

impl From<i32> for Int32 {
    /// Decompose a native `i32` into four bytes, least-significant first.
    fn from(n: i32) -> Self {
        Int32 {
            parts: [
                ((n >> 0) & 0xFF) as i16,
                ((n >> 8) & 0xFF) as i16,
                ((n >> 16) & 0xFF) as i16,
                ((n >> 24) & 0xFF) as i16,
            ],
        }
    }
}

/// Conversion from a native value is exact: the limb vector made from `n`
/// is well formed and denotes `n` itself, so reading it back with
/// `to_native` completes the round trip for every 32-bit integer.
pub proof fn lemma_from_native(n: i32)
    ensures
        Int32::from_spec(n).wf(),
        Int32::from_spec(n).value_i() == n,
{
    let v = Int32::from_spec(n);
    assert(0 <= ((n >> 0) & 0xFF) as i16 <= 0xFF && 0 <= ((n >> 8) & 0xFF) as i16 <= 0xFF
        && 0 <= ((n >> 16) & 0xFF) as i16 <= 0xFF && 0 <= ((n >> 24) & 0xFF) as i16 <= 0xFF)
        by (bit_vector);
    assert(((n >> 0) & 0xFF) as i16 + 0x100 * (((n >> 8) & 0xFF) as i16) + 0x1_0000 * (((n
        >> 16) & 0xFF) as i16) + 0x100_0000 * (((n >> 24) & 0xFF) as i16) == if n >= 0 {
        n as int
    } else {
        n + 0x1_0000_0000
    }) by (bit_vector);
}

impl Int32 {
    /// Reassemble the four limbs into a native `i32`, interpreting the
    /// 32-bit pattern as two's complement.
    pub fn to_native(&self) -> (r: i32)
        requires
            self.wf(),
        ensures
            r == self.value_i(),
    {
        let r: i32 = (self.parts[3] as i32) << 24 | (self.parts[2] as i32) << 16 | (self.parts[1]
            as i32) << 8 | (self.parts[0] as i32) << 0;
        proof {
            let (p0, p1, p2, p3) = (self.parts@[0], self.parts@[1], self.parts@[2], self.parts@[3]);
            assert(((p3 as i32) << 24 | (p2 as i32) << 16 | (p1 as i32) << 8 | (p0 as i32) << 0)
                == if p0 + 0x100 * p1 + 0x1_0000 * p2 + 0x100_0000 * p3 < 0x8000_0000 {
                p0 + 0x100 * p1 + 0x1_0000 * p2 + 0x100_0000 * p3
            } else {
                p0 + 0x100 * p1 + 0x1_0000 * p2 + 0x100_0000 * p3 - 0x1_0000_0000
            }) by (bit_vector)
                requires
                    0 <= p0 <= 0xFF && 0 <= p1 <= 0xFF && 0 <= p2 <= 0xFF && 0 <= p3 <= 0xFF,
            ;
        }
        r
    }
}

impl Int32 {
    /// Two's-complement negation: complement each limb within its byte, then
    /// add one with carry propagation; carry out of limb 3 is discarded, so
    /// the result is the negation modulo 2^32.
    pub fn neg(&mut self)
        requires
            old(self).wf(),
        ensures
            final(self).wf(),
            final(self).value_u() == (0x1_0000_0000 - old(self).value_u()) % 0x1_0000_0000,
    {
        self.parts[0] = 0xFF - self.parts[0];
        self.parts[1] = 0xFF - self.parts[1];
        self.parts[2] = 0xFF - self.parts[2];
        self.parts[3] = 0xFF - self.parts[3];
        self.parts[0] = self.parts[0] + 1;

        if self.parts[0] > 0xFF {
            self.parts[0] = 0;
            self.parts[1] = self.parts[1] + 1;
        }

        if self.parts[1] > 0xFF {
            self.parts[1] = 0;
            self.parts[2] = self.parts[2] + 1;
        }

        if self.parts[2] > 0xFF {
            self.parts[2] = 0;
            self.parts[3] = self.parts[3] + 1;
        }

        if self.parts[3] > 0xFF {
            self.parts[3] = 0;
        }
    }
}

impl Int32 {
    /// Limb-wise addition with carry propagation from limb 0 up; carry out
    /// of limb 3 is discarded, so the result is the sum modulo 2^32.
    pub fn add(&mut self, other: &Self)
        requires
            old(self).wf(),
            other.wf(),
        ensures
            final(self).wf(),
            final(self).value_u() == (old(self).value_u() + other.value_u()) % 0x1_0000_0000,
    {
        self.parts[0] = self.parts[0] + other.parts[0];
        self.parts[1] = self.parts[1] + other.parts[1];
        self.parts[2] = self.parts[2] + other.parts[2];
        self.parts[3] = self.parts[3] + other.parts[3];

        if self.parts[0] > 0xFF {
            self.parts[0] = self.parts[0] - 0x100;
            self.parts[1] = self.parts[1] + 1;
        }

        if self.parts[1] > 0xFF {
            self.parts[1] = self.parts[1] - 0x100;
            self.parts[2] = self.parts[2] + 1;
        }

        if self.parts[2] > 0xFF {
            self.parts[2] = self.parts[2] - 0x100;
            self.parts[3] = self.parts[3] + 1;
        }

        if self.parts[3] > 0xFF {
            self.parts[3] = self.parts[3] - 0x100;
        }
    }
}

impl Int32 {
    /// Subtraction: negate a copy of the right operand and add it, so the
    /// result is the difference modulo 2^32.
    pub fn sub(&mut self, other: &Self)
        requires
            old(self).wf(),
            other.wf(),
        ensures
            final(self).wf(),
            final(self).value_u() == (old(self).value_u() - other.value_u()) % 0x1_0000_0000,
    {
        let mut negated = Self { parts: other.parts };
        negated.neg();
        proof {
            lemma_mod32(0x1_0000_0000 - other.value_u());
        }
        self.add(&negated);
        proof {
            lemma_mod32(old(self).value_u() + negated.value_u());
            lemma_mod32(old(self).value_u() - other.value_u());
        }
    }
}

/// Resolves `x % 2^32` to a plain difference when `x` is within one modulus
/// of the 32-bit range, which every carry-discarding operation here is.
pub proof fn lemma_mod32(x: int)
    requires
        -0x1_0000_0000 <= x < 0x2_0000_0000,
    ensures
        x % 0x1_0000_0000 == if x < 0 {
            x + 0x1_0000_0000
        } else if x < 0x1_0000_0000 {
            x
        } else {
            x - 0x1_0000_0000
        },
{
    if x < 0 {
        vstd::arithmetic::div_mod::lemma_fundamental_div_mod_converse(
            x,
            0x1_0000_0000,
            -1,
            x + 0x1_0000_0000,
        );
    } else if x < 0x1_0000_0000 {
        vstd::arithmetic::div_mod::lemma_fundamental_div_mod_converse(x, 0x1_0000_0000, 0, x);
    } else {
        vstd::arithmetic::div_mod::lemma_fundamental_div_mod_converse(
            x,
            0x1_0000_0000,
            1,
            x - 0x1_0000_0000,
        );
    }
}

/// Negating a reduced value modulo 2^32 is negating the value itself.
pub proof fn lemma_neg_mod32(x: int)
    requires
        x >= 0,
    ensures
        (0x1_0000_0000 - x % 0x1_0000_0000) % 0x1_0000_0000 == (-x) % 0x1_0000_0000,
{
    let m = 0x1_0000_0000int;
    vstd::arithmetic::div_mod::lemma_fundamental_div_mod(x, m);
    let q = x / m;
    let r = x % m;
    assert(m * (-q) + (-r) == -x) by (nonlinear_arith)
        requires
            x == m * q + r,
    ;
    vstd::arithmetic::div_mod::lemma_mod_multiples_vanish(-q, -r, m);
    vstd::arithmetic::div_mod::lemma_mod_bound(x, m);
    lemma_mod32(-r);
    lemma_mod32(m - r);
}

/// The unsigned value determines the limbs: two well-formed limb vectors
/// with the same value are equal.
pub proof fn lemma_value_determines_limbs(a: Int32, b: Int32)
    requires
        a.wf(),
        b.wf(),
        a.value_u() == b.value_u(),
    ensures
        a == b,
{
    assert(a.parts@[0] == b.parts@[0] && a.parts@[1] == b.parts@[1] && a.parts@[2] == b.parts@[2]
        && a.parts@[3] == b.parts@[3]);
    assert(a.parts =~= b.parts);
}

/// Negation is an involution: negating twice restores the starting limb
/// vector exactly, including for the most negative value, which negates to
/// itself.
pub proof fn lemma_neg_involution(a: Int32, b: Int32, c: Int32)
    requires
        a.wf(),
        b.wf(),
        c.wf(),
        b.value_u() == (0x1_0000_0000 - a.value_u()) % 0x1_0000_0000,
        c.value_u() == (0x1_0000_0000 - b.value_u()) % 0x1_0000_0000,
    ensures
        c == a,
{
    lemma_mod32(0x1_0000_0000 - a.value_u());
    lemma_mod32(0x1_0000_0000 - b.value_u());
    lemma_value_determines_limbs(a, c);
}

/// Adding a value to its own negation yields exactly zero.
pub proof fn lemma_add_inverse(a: Int32, b: Int32, c: Int32)
    requires
        a.wf(),
        b.wf(),
        c.wf(),
        b.value_u() == (0x1_0000_0000 - a.value_u()) % 0x1_0000_0000,
        c.value_u() == (a.value_u() + b.value_u()) % 0x1_0000_0000,
    ensures
        c.value_u() == 0,
        c.value_i() == 0,
{
    lemma_mod32(0x1_0000_0000 - a.value_u());
    lemma_mod32(a.value_u() + b.value_u());
}

/// Negation agrees with the native wrapping negation of `i32`.
pub proof fn lemma_neg_matches_native(a: Int32, b: Int32)
    requires
        a.wf(),
        b.wf(),
        b.value_u() == (0x1_0000_0000 - a.value_u()) % 0x1_0000_0000,
    ensures
        b.value_i() == vstd::wrapping::i32_specs::wrapping_sub(0i32, a.value_i() as i32),
{
    lemma_mod32(0x1_0000_0000 - a.value_u());
}

/// Addition agrees with the native wrapping addition of `i32`.
pub proof fn lemma_add_matches_native(a: Int32, b: Int32, c: Int32)
    requires
        a.wf(),
        b.wf(),
        c.wf(),
        c.value_u() == (a.value_u() + b.value_u()) % 0x1_0000_0000,
    ensures
        c.value_i() == vstd::wrapping::i32_specs::wrapping_add(
            a.value_i() as i32,
            b.value_i() as i32,
        ),
{
    lemma_mod32(a.value_u() + b.value_u());
    lemma_mod32(a.value_u() + b.value_u() - 0x1_0000_0000);
}

/// Subtraction agrees with the native wrapping subtraction of `i32`.
pub proof fn lemma_sub_matches_native(a: Int32, b: Int32, c: Int32)
    requires
        a.wf(),
        b.wf(),
        c.wf(),
        c.value_u() == (a.value_u() - b.value_u()) % 0x1_0000_0000,
    ensures
        c.value_i() == vstd::wrapping::i32_specs::wrapping_sub(
            a.value_i() as i32,
            b.value_i() as i32,
        ),
{
    lemma_mod32(a.value_u() - b.value_u());
    lemma_mod32(a.value_u() - b.value_u() + 0x1_0000_0000);
}

} // verus!
