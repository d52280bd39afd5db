//! Base-16 digit sequences: the number a nibble vector denotes, and the
//! facts about digit values that the multiplication and long-division
//! proofs rest on.

use vstd::prelude::*;

verus! {

/// 16 raised to `n`.
pub open spec fn pow16(n: nat) -> int
    decreases n,
{
    if n == 0 {
        1
    } else {
        16 * pow16((n - 1) as nat)
    }
}

/// Every element of `s` is a base-16 digit.
pub open spec fn nibbles(s: Seq<i16>) -> bool {
    forall|i: int| 0 <= i < s.len() ==> 0 <= #[trigger] s[i] < 16
}

/// The number denoted by `s` read in base 16, element 0 least significant.
/// Defined for arbitrary elements, so partial sums holding transient
/// carries can be spoken of too.
pub open spec fn val16(s: Seq<i16>) -> int
    decreases s.len(),
{
    if s.len() == 0 {
        0
    } else {
        s[0] + 16 * val16(s.drop_first())
    }
}

pub proof fn lemma_pow16_pos(n: nat)
    ensures
        pow16(n) >= 1,
    decreases n,
{
    if n > 0 {
        lemma_pow16_pos((n - 1) as nat);
    }
}

pub proof fn lemma_pow16_adds(a: nat, b: nat)
    ensures
        pow16(a + b) == pow16(a) * pow16(b),
    decreases a,
{
    if a == 0 {
        assert(pow16(0 + b) == 1 * pow16(b));
    } else {
        lemma_pow16_adds((a - 1) as nat, b);
        assert(pow16(a + b) == 16 * pow16((a + b - 1) as nat));
        assert(16 * (pow16((a - 1) as nat) * pow16(b)) == (16 * pow16((a - 1) as nat)) * pow16(b))
            by (nonlinear_arith);
    }
}

/// A vector of `n` digits denotes a value in `0 .. 16^n`.
pub proof fn lemma_val16_bounds(s: Seq<i16>)
    requires
        nibbles(s),
    ensures
        0 <= val16(s) < pow16(s.len()),
    decreases s.len(),
{
    if s.len() > 0 {
        assert(nibbles(s.drop_first()));
        lemma_val16_bounds(s.drop_first());
        lemma_pow16_pos((s.len() - 1) as nat);
        assert(16 * val16(s.drop_first()) <= 16 * (pow16((s.len() - 1) as nat) - 1))
            by (nonlinear_arith)
            requires
                val16(s.drop_first()) <= pow16((s.len() - 1) as nat) - 1,
        ;
    }
}

/// The value splits at any position: low digits plus a shifted high part.
pub proof fn lemma_val16_split(s: Seq<i16>, k: int)
    requires
        0 <= k <= s.len(),
    ensures
        val16(s) == val16(s.take(k)) + pow16(k as nat) * val16(s.skip(k)),
    decreases k,
{
    if k == 0 {
        assert(s.skip(0) =~= s);
        assert(s.take(0).len() == 0);
    } else {
        assert(s.len() > 0);
        lemma_val16_split(s.drop_first(), k - 1);
        assert(s.take(k).drop_first() =~= s.drop_first().take(k - 1));
        assert(s.skip(k) =~= s.drop_first().skip(k - 1));
        assert(val16(s.take(k)) == s[0] + 16 * val16(s.drop_first().take(k - 1)));
        assert(val16(s) == s[0] + 16 * val16(s.drop_first()));
        let hi = val16(s.skip(k));
        assert(16 * (pow16((k - 1) as nat) * hi) == (16 * pow16((k - 1) as nat)) * hi)
            by (nonlinear_arith);
    }
}

/// Replacing one digit moves the value by the difference at that weight.
pub proof fn lemma_val16_update(s: Seq<i16>, i: int, x: i16)
    requires
        0 <= i < s.len(),
    ensures
        val16(s.update(i, x)) == val16(s) + pow16(i as nat) * (x - s[i]),
    decreases i,
{
    if i == 0 {
        assert(s.update(0, x).drop_first() =~= s.drop_first());
        assert(val16(s.update(0, x)) == x + 16 * val16(s.drop_first()));
    } else {
        lemma_val16_update(s.drop_first(), i - 1, x);
        assert(s.update(i, x).drop_first() =~= s.drop_first().update(i - 1, x));
        assert(val16(s.update(i, x)) == s[0] + 16 * val16(s.drop_first().update(i - 1, x)));
        let d = x - s[i];
        assert(16 * (pow16((i - 1) as nat) * d) == (16 * pow16((i - 1) as nat)) * d)
            by (nonlinear_arith);
    }
}

/// A vector of zero digits denotes zero.
pub proof fn lemma_val16_zero(s: Seq<i16>)
    requires
        forall|i: int| 0 <= i < s.len() ==> #[trigger] s[i] == 0,
    ensures
        val16(s) == 0,
    decreases s.len(),
{
    if s.len() > 0 {
        lemma_val16_zero(s.drop_first());
    }
}

/// Extending a prefix by one digit adds that digit at its weight.
pub proof fn lemma_val16_take_succ(s: Seq<i16>, i: int)
    requires
        0 <= i < s.len(),
    ensures
        val16(s.take(i + 1)) == val16(s.take(i)) + pow16(i as nat) * s[i],
{
    lemma_val16_split(s.take(i + 1), i);
    assert(s.take(i + 1).take(i) =~= s.take(i));
    let tail = s.take(i + 1).skip(i);
    assert(tail.len() == 1);
    assert(tail[0] == s[i]);
    assert(val16(tail.drop_first()) == 0);
    assert(val16(tail) == s[i] + 16 * 0);
}

/// For a digit vector, the suffix from `k` denotes the value shifted down.
pub proof fn lemma_val16_skip_div(s: Seq<i16>, k: int)
    requires
        nibbles(s),
        0 <= k <= s.len(),
    ensures
        val16(s.skip(k)) == val16(s) / pow16(k as nat),
{
    lemma_val16_split(s, k);
    assert(nibbles(s.take(k)));
    lemma_val16_bounds(s.take(k));
    lemma_pow16_pos(k as nat);
    vstd::arithmetic::mul::lemma_mul_is_commutative(pow16(k as nat), val16(s.skip(k)));
    vstd::arithmetic::div_mod::lemma_fundamental_div_mod_converse(
        val16(s),
        pow16(k as nat),
        val16(s.skip(k)),
        val16(s.take(k)),
    );
}

/// Two adjacent digits read together as one base-256 digit.
pub proof fn lemma_val16_pair(s: Seq<i16>, k: int)
    requires
        0 <= k,
        k + 2 <= s.len(),
    ensures
        val16(s.skip(k)) == s[k] + 16 * s[k + 1] + 0x100 * val16(s.skip(k + 2)),
{
    lemma_val16_skip_succ(s, k);
    lemma_val16_skip_succ(s, k + 1);
}

/// The small powers of 16 that the 32-bit limb layout uses.
pub proof fn lemma_pow16_values()
    ensures
        pow16(1) == 0x10,
        pow16(2) == 0x100,
        pow16(3) == 0x1000,
        pow16(4) == 0x1_0000,
        pow16(8) == 0x1_0000_0000,
{
    assert(pow16(1) == 16 * pow16(0));
    assert(pow16(2) == 16 * pow16(1));
    assert(pow16(3) == 16 * pow16(2));
    assert(pow16(4) == 16 * pow16(3));
    assert(pow16(5) == 16 * pow16(4));
    assert(pow16(6) == 16 * pow16(5));
    assert(pow16(7) == 16 * pow16(6));
    assert(pow16(8) == 16 * pow16(7));
}

/// Peeling one digit off the low end of a suffix.
pub proof fn lemma_val16_skip_succ(s: Seq<i16>, j: int)
    requires
        0 <= j < s.len(),
    ensures
        val16(s.skip(j)) == s[j] + 16 * val16(s.skip(j + 1)),
{
    assert(s.skip(j).drop_first() =~= s.skip(j + 1));
    assert(val16(s.skip(j)) == s.skip(j)[0] + 16 * val16(s.skip(j).drop_first()));
}

/// Each digit of a digit vector is recovered from its value.
pub proof fn lemma_val16_digit(s: Seq<i16>, i: int)
    requires
        nibbles(s),
        0 <= i < s.len(),
    ensures
        s[i] == (val16(s) / pow16(i as nat)) % 16,
{
    lemma_val16_split(s, i);
    lemma_val16_skip_succ(s, i);
    assert(nibbles(s.take(i)));
    assert(nibbles(s.skip(i + 1)));
    lemma_val16_bounds(s.take(i));
    lemma_val16_bounds(s.skip(i + 1));
    lemma_pow16_pos(i as nat);
    let p = pow16(i as nat);
    let lo = val16(s.take(i));
    let hi = val16(s.skip(i + 1));
    vstd::arithmetic::mul::lemma_mul_is_commutative(p, s[i] + 16 * hi);
    assert(val16(s) == lo + p * (s[i] + 16 * hi));
    vstd::arithmetic::div_mod::lemma_fundamental_div_mod_converse(
        val16(s),
        p,
        s[i] + 16 * hi,
        lo,
    );
    assert(val16(s) / p == s[i] + 16 * hi);
    vstd::arithmetic::div_mod::lemma_fundamental_div_mod_converse(s[i] + 16 * hi, 16, hi, s[i] as int);
}

/// The low `k` digits of a digit vector denote its value modulo `16^k`.
pub proof fn lemma_val16_take_mod(s: Seq<i16>, k: int)
    requires
        nibbles(s),
        0 <= k <= s.len(),
    ensures
        val16(s.take(k)) == val16(s) % pow16(k as nat),
{
    lemma_val16_split(s, k);
    assert(nibbles(s.take(k)));
    assert(nibbles(s.skip(k)));
    lemma_val16_bounds(s.take(k));
    lemma_val16_bounds(s.skip(k));
    lemma_pow16_pos(k as nat);
    vstd::arithmetic::mul::lemma_mul_is_commutative(pow16(k as nat), val16(s.skip(k)));
    vstd::arithmetic::div_mod::lemma_fundamental_div_mod_converse(
        val16(s),
        pow16(k as nat),
        val16(s.skip(k)),
        val16(s.take(k)),
    );
}

/// A digit vector whose value is below `16^k` is zero above position `k`.
pub proof fn lemma_val16_high_zero(s: Seq<i16>, k: int, i: int)
    requires
        nibbles(s),
        0 <= k <= i < s.len(),
        val16(s) < pow16(k as nat),
    ensures
        s[i] == 0,
{
    lemma_val16_digit(s, i);
    lemma_val16_bounds(s);
    lemma_pow16_pos(k as nat);
    lemma_pow16_adds(k as nat, (i - k) as nat);
    lemma_pow16_pos((i - k) as nat);
    assert(pow16(k as nat) <= pow16(i as nat)) by (nonlinear_arith)
        requires
            pow16(i as nat) == pow16(k as nat) * pow16((i - k) as nat),
            pow16(k as nat) >= 1,
            pow16((i - k) as nat) >= 1,
    ;
    assert(val16(s) / pow16(i as nat) == 0) by {
        vstd::arithmetic::div_mod::lemma_basic_div(val16(s), pow16(i as nat));
    }
}

} // verus!
