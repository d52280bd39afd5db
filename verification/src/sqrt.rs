//! Integer square root by a fixed number of Newton-Raphson iterations,
//! each built from the division and addition primitives.

use vstd::prelude::*;
use crate::errors::NegativeOperand;
use crate::int32::{lemma_from_native, lemma_mod32, Int32};

verus! {

/// One Newton-Raphson step for the square root of `n` from guess `g`.
pub open spec fn newton_step(n: int, g: int) -> int {
    (g + n / g) / 2
}

/// The guess after `k` Newton-Raphson steps from `g`.
pub open spec fn newton_iter(n: int, g: int, k: nat) -> int
    decreases k,
{
    if k == 0 {
        g
    } else {
        newton_iter(n, newton_step(n, g), (k - 1) as nat)
    }
}

/// The integer square root: the largest integer whose square is at most `n`.
pub open spec fn isqrt(n: int) -> int
    decreases n,
{
    if n <= 0 {
        0
    } else {
        if (isqrt(n - 1) + 1) * (isqrt(n - 1) + 1) <= n {
            isqrt(n - 1) + 1
        } else {
            isqrt(n - 1)
        }
    }
}

/// The defining property of the integer square root.
pub proof fn lemma_isqrt_bounds(n: int)
    requires
        n >= 0,
    ensures
        isqrt(n) >= 0,
        isqrt(n) * isqrt(n) <= n,
        n < (isqrt(n) + 1) * (isqrt(n) + 1),
    decreases n,
{
    if n == 0 {
    } else {
        lemma_isqrt_bounds(n - 1);
        let r = isqrt(n - 1);
        if (r + 1) * (r + 1) <= n {
            assert((r + 2) * (r + 2) > (r + 1) * (r + 1) + 1) by (nonlinear_arith)
                requires
                    r >= 0,
            ;
            assert(n - 1 < (r + 1) * (r + 1));
        }
    }
}

/// Within the 31-bit range the integer square root stays below 2^16.
pub proof fn lemma_isqrt_small(n: int)
    requires
        0 <= n < 0x8000_0000,
    ensures
        0 <= isqrt(n) <= 46340,
{
    lemma_isqrt_bounds(n);
    let s = isqrt(n);
    if s >= 46341 {
        assert(s * s >= 46341 * 46341) by (nonlinear_arith)
            requires
                s >= 46341,
        ;
    }
}

/// A Newton step never lands below the integer square root.
pub proof fn lemma_newton_above(n: int, g: int)
    requires
        n >= 1,
        g >= 1,
    ensures
        newton_step(n, g) >= isqrt(n),
{
    lemma_isqrt_bounds(n);
    let s = isqrt(n);
    vstd::arithmetic::div_mod::lemma_div_pos_is_pos(n, g);
    if g > 2 * s {
        assert((g + n / g) / 2 >= (2 * s) / 2) by {
            vstd::arithmetic::div_mod::lemma_div_is_ordered(2 * s, g + n / g, 2);
        }
    } else {
        assert(n >= g * (2 * s - g)) by (nonlinear_arith)
            requires
                s * s <= n,
        ;
        assert((g * (2 * s - g)) / g == 2 * s - g) by {
            vstd::arithmetic::div_mod::lemma_div_multiples_vanish(2 * s - g, g);
            vstd::arithmetic::mul::lemma_mul_is_commutative(g, 2 * s - g);
        }
        vstd::arithmetic::div_mod::lemma_div_is_ordered(g * (2 * s - g), n, g);
        assert(n / g >= 2 * s - g);
        vstd::arithmetic::div_mod::lemma_div_is_ordered(2 * s, g + n / g, 2);
    }
}

/// Dividing by a guess at or above the root cannot overshoot the root by
/// more than two.
pub proof fn lemma_newton_quotient_small(n: int, g: int)
    requires
        n >= 1,
        g >= 1,
        g >= isqrt(n),
    ensures
        n / g <= isqrt(n) + 2,
{
    lemma_isqrt_bounds(n);
    let s = isqrt(n);
    if s == 0 {
        assert((s + 1) * (s + 1) == 1) by (nonlinear_arith)
            requires
                s == 0,
        ;
        assert(false);
    } else {
        assert(n <= s * s + 2 * s) by (nonlinear_arith)
            requires
                n < (s + 1) * (s + 1),
        ;
        assert((s * (s + 2)) / s == s + 2) by {
            vstd::arithmetic::div_mod::lemma_div_multiples_vanish(s + 2, s);
            vstd::arithmetic::mul::lemma_mul_is_commutative(s, s + 2);
        }
        assert(s * s + 2 * s == s * (s + 2)) by (nonlinear_arith);
        vstd::arithmetic::div_mod::lemma_div_is_ordered(n, s * (s + 2), s);
        assert(n / s <= s + 2);
        vstd::arithmetic::div_mod::lemma_div_is_ordered_by_denominator(n, s, g);
        assert(n / g <= n / s);
    }
}

/// Unrolling the iteration from the far end: one more step applies the
/// Newton step to the current guess.
pub proof fn lemma_newton_iter_succ(n: int, g: int, k: nat)
    ensures
        newton_iter(n, g, k + 1) == newton_step(n, newton_iter(n, g, k)),
    decreases k,
{
    if k == 0 {
        assert(newton_iter(n, newton_step(n, g), 0) == newton_step(n, g));
        assert(newton_iter(n, g, 1) == newton_iter(n, newton_step(n, g), 0));
    } else {
        lemma_newton_iter_succ(n, newton_step(n, g), (k - 1) as nat);
        assert(newton_iter(n, g, k + 1) == newton_iter(n, newton_step(n, g), k));
        assert(newton_iter(n, g, k) == newton_iter(n, newton_step(n, g), (k - 1) as nat));
    }
}

impl Int32 {
    /// Newton-Raphson integer square root: twenty fixed iterations from an
    /// initial guess of five, each computing `(guess + n / guess) / 2` with
    /// the limb division and addition. Fails, leaving the receiver
    /// untouched, exactly when the operand is negative; zero maps to zero.
    pub fn sqrt(&mut self) -> (r: Result<(), NegativeOperand>)
        requires
            old(self).wf(),
        ensures
            final(self).wf(),
            old(self).value_i() < 0 ==> r is Err && *final(self) == *old(self),
            old(self).value_i() == 0 ==> r is Ok && final(self).value_u() == 0,
            old(self).value_i() > 0 ==> r is Ok && final(self).value_u() == newton_iter(
                old(self).value_i(),
                5,
                20,
            ),
            old(self).value_i() > 0 ==> final(self).value_u() >= isqrt(old(self).value_i()),
    {
        if self.parts[3] >= 0x80 {
            return Err(NegativeOperand);
        }
        if self.parts[0] == 0 && self.parts[1] == 0 && self.parts[2] == 0 && self.parts[3] == 0 {
            return Ok(());
        }
        let ghost n = old(self).value_i();
        proof {
            assert(1 <= n < 0x8000_0000);
            lemma_isqrt_bounds(n);
            lemma_isqrt_small(n);
            lemma_from_native(5);
            lemma_from_native(2);
        }
        let mut guess = Int32::from(5);
        let two = Int32::from(2);
        let mut k: usize = 0;
        while k < 20
            invariant
                0 <= k <= 20,
                1 <= n < 0x8000_0000,
                self.wf(),
                self.value_i() == n,
                two.wf(),
                two.value_i() == 2,
                guess.wf(),
                guess.value_i() == newton_iter(n, 5, k as nat),
                guess.value_u() == guess.value_i(),
                k == 0 ==> guess.value_i() == 5,
                k >= 1 ==> isqrt(n) <= guess.value_i() <= 214748367,
            decreases 20 - k,
        {
            let ghost g = guess.value_i();
            proof {
                lemma_isqrt_bounds(n);
                lemma_isqrt_small(n);
                let s = isqrt(n);
                if s == 0 {
                    assert((s + 1) * (s + 1) == 1) by (nonlinear_arith)
                        requires
                            s == 0,
                    ;
                    assert(false);
                }
                assert(g >= 1);
                if k >= 1 {
                    lemma_newton_quotient_small(n, g);
                } else {
                    assert(n / 5 <= 0x7FFF_FFFFint / 5) by {
                        vstd::arithmetic::div_mod::lemma_div_is_ordered(n, 0x7FFF_FFFFint, 5);
                    }
                }
                vstd::arithmetic::div_mod::lemma_div_pos_is_pos(n, g);
            }
            let mut inverse = Int32 { parts: self.parts };
            let _ = inverse.div(&guess);
            proof {
                assert(inverse.value_i() == n / g);
                lemma_mod32(g + n / g);
            }
            guess.add(&inverse);
            proof {
                assert(guess.value_u() == g + n / g);
                assert(guess.value_i() == g + n / g);
            }
            let _ = guess.div(&two);
            proof {
                assert(guess.value_i() == newton_step(n, g));
                lemma_newton_iter_succ(n, 5, k as nat);
                lemma_newton_above(n, g);
                assert(newton_step(n, g) <= (g + n / g) / 2);
                if k >= 1 {
                    assert((g + n / g) / 2 <= (214748367int + 46342) / 2) by {
                        vstd::arithmetic::div_mod::lemma_div_is_ordered(
                            g + n / g,
                            214748367int + 46342,
                            2,
                        );
                    }
                } else {
                    assert((g + n / g) / 2 <= (5int + 429496729) / 2) by {
                        vstd::arithmetic::div_mod::lemma_div_is_ordered(
                            g + n / g,
                            5int + 429496729,
                            2,
                        );
                    }
                }
                assert(guess.value_u() == guess.value_i());
            }
            k = k + 1;
        }
        *self = guess;
        Ok(())
    }
}

} // verus!
