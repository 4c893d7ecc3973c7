//! Ghost arithmetic helpers: bit length of a natural number and a few
//! facts about powers of two that the conversion proofs lean on.

use vstd::arithmetic::div_mod::{
    lemma_div_decreases, lemma_div_pos_is_pos, lemma_fundamental_div_mod,
};
use vstd::arithmetic::power2::{
    lemma_pow2_adds, lemma_pow2_pos, lemma_pow2_strictly_increases, lemma_pow2_unfold, pow2,
};
use vstd::prelude::*;

verus! {

/// Number of binary digits of `v`: the least `n` with `v < pow2(n)`.
pub open spec fn bit_len_of(v: nat) -> nat
    decreases v,
{
    if v == 0 {
        0
    } else {
        1 + bit_len_of(v / 2)
    }
}

/// `bit_len_of` is the exact bit length: `v` fits in `bit_len_of(v)` bits
/// and, when nonzero, needs all of them.
pub proof fn lemma_bit_len_bounds(v: nat)
    ensures
        v < pow2(bit_len_of(v)),
        v > 0 ==> pow2((bit_len_of(v) - 1) as nat) <= v,
    decreases v,
{
    if v == 0 {
        assert(pow2(0) == 1) by {
            lemma_pow2_unfold(1);
            lemma_pow2_pos(1);
            assert(pow2(1) == 2 * pow2(0));
            assert(pow2(1) >= 1);
            reveal(vstd::arithmetic::power2::pow2);
            reveal(vstd::arithmetic::power::pow);
        }
    } else {
        let h = v / 2;
        lemma_div_decreases(v as int, 2);
        lemma_bit_len_bounds(h);
        lemma_fundamental_div_mod(v as int, 2);
        lemma_pow2_unfold(bit_len_of(v));
        assert(pow2(bit_len_of(v)) == 2 * pow2(bit_len_of(h)));
        assert(v < 2 * pow2(bit_len_of(h)));
        if h == 0 {
            assert(v == 1);
            assert(pow2(0) == 1) by {
                reveal(vstd::arithmetic::power2::pow2);
                reveal(vstd::arithmetic::power::pow);
            }
        } else {
            lemma_pow2_unfold(bit_len_of(h));
            assert(pow2(bit_len_of(h)) == 2 * pow2((bit_len_of(h) - 1) as nat));
            assert(pow2((bit_len_of(v) - 1) as nat) == pow2(bit_len_of(h)));
            assert(v >= 2 * pow2((bit_len_of(h) - 1) as nat));
        }
    }
}

/// A value below `pow2(n)` has bit length at most `n`.
pub proof fn lemma_bit_len_le(v: nat, n: nat)
    requires
        v < pow2(n),
    ensures
        bit_len_of(v) <= n,
{
    lemma_bit_len_bounds(v);
    if bit_len_of(v) > n {
        assert(v > 0);
        lemma_pow2_strictly_increases(n, (bit_len_of(v) - 1) as nat);
        if n < bit_len_of(v) - 1 {
            assert(pow2(n) < pow2((bit_len_of(v) - 1) as nat));
        }
        assert(pow2(n) <= pow2((bit_len_of(v) - 1) as nat)) by {
            if n == bit_len_of(v) - 1 {
            } else {
                lemma_pow2_strictly_increases(n, (bit_len_of(v) - 1) as nat);
            }
        }
        assert(false);
    }
}

/// The bit length is pinned by any enclosing power-of-two window.
pub proof fn lemma_bit_len_exact(v: nat, n: nat)
    requires
        pow2(n) <= v < pow2(n + 1),
    ensures
        bit_len_of(v) == n + 1,
{
    lemma_bit_len_le(v, n + 1);
    lemma_bit_len_bounds(v);
    lemma_pow2_pos(n);
    assert(v > 0);
    if bit_len_of(v) <= n {
        lemma_pow2_le(bit_len_of(v), n);
        assert(v < pow2(n));
        assert(false);
    }
}

/// Monotonicity of `pow2` in non-strict form.
pub proof fn lemma_pow2_le(e1: nat, e2: nat)
    requires
        e1 <= e2,
    ensures
        pow2(e1) <= pow2(e2),
{
    if e1 < e2 {
        lemma_pow2_strictly_increases(e1, e2);
    }
}

/// Reaching `pow2(k)` is the same as having more than `k` binary digits.
pub proof fn lemma_bit_len_gt(v: nat, k: nat)
    ensures
        (v >= pow2(k)) <==> (bit_len_of(v) > k),
{
    lemma_bit_len_bounds(v);
    lemma_pow2_pos(k);
    if v >= pow2(k) {
        if bit_len_of(v) <= k {
            lemma_pow2_le(bit_len_of(v), k);
            assert(false);
        }
    }
    if bit_len_of(v) > k {
        lemma_pow2_le(k, (bit_len_of(v) - 1) as nat);
    }
}

/// Shifting left by `k` bits adds `k` to the bit length of a nonzero value.
pub proof fn lemma_bit_len_shift(v: nat, k: nat)
    requires
        v > 0,
    ensures
        bit_len_of(v * pow2(k)) == bit_len_of(v) + k,
{
    lemma_bit_len_bounds(v);
    let n = (bit_len_of(v) - 1) as nat;
    assert(pow2(n) <= v < pow2(n + 1));
    lemma_pow2_pos(k);
    assert(pow2(n) * pow2(k) <= v * pow2(k)) by (nonlinear_arith)
        requires
            pow2(n) <= v,
            pow2(k) > 0,
    ;
    assert(v * pow2(k) < pow2(n + 1) * pow2(k)) by (nonlinear_arith)
        requires
            v < pow2(n + 1),
            pow2(k) > 0,
    ;
    lemma_pow2_adds(n, k);
    lemma_pow2_adds(n + 1, k);
    lemma_bit_len_exact(v * pow2(k), n + k);
}

/// A 64-bit window of `w` starting `t` bits up (0 < t < 64) is assembled
/// from the two adjacent 64-bit words around the cut.
pub proof fn lemma_word_window(w: nat, t: nat)
    requires
        1 <= t <= 63,
    ensures
        (w / pow2(t)) % pow2(64) == (w % pow2(64)) / pow2(t) + (((w / pow2(64)) % pow2(64)) % pow2(
            t,
        )) * pow2((64 - t) as nat),
{
    let s = (64 - t) as nat;
    let p64 = pow2(64) as int;
    let pt = pow2(t) as int;
    let ps = pow2(s) as int;
    let wi = w as int;
    lemma_pow2_pos(64);
    lemma_pow2_pos(t);
    lemma_pow2_pos(s);
    lemma_pow2_adds(t, s);
    assert(p64 == pt * ps);
    let a = wi % p64;
    let h = wi / p64;
    let b = h % p64;
    let k = h / p64;
    let q1 = a / pt;
    let r0 = a % pt;
    let u = b / pt;
    let r1 = b % pt;
    lemma_fundamental_div_mod(wi, p64);
    lemma_fundamental_div_mod(a, pt);
    lemma_fundamental_div_mod(h, p64);
    lemma_fundamental_div_mod(b, pt);
    vstd::arithmetic::div_mod::lemma_mod_bound(wi, p64);
    vstd::arithmetic::div_mod::lemma_mod_bound(a, pt);
    vstd::arithmetic::div_mod::lemma_mod_bound(h, p64);
    vstd::arithmetic::div_mod::lemma_mod_bound(b, pt);
    vstd::arithmetic::div_mod::lemma_div_pos_is_pos(wi, p64);
    vstd::arithmetic::div_mod::lemma_div_pos_is_pos(a, pt);
    vstd::arithmetic::div_mod::lemma_div_pos_is_pos(h, p64);
    vstd::arithmetic::div_mod::lemma_div_pos_is_pos(b, pt);
    // The cut at bit t: w == pt * (q1 + ps * h) + r0.
    assert(wi == pt * (q1 + ps * h) + r0) by {
        vstd::arithmetic::mul::lemma_mul_is_distributive_add(pt, q1, ps * h);
        vstd::arithmetic::mul::lemma_mul_is_associative(pt, ps, h);
    }
    vstd::arithmetic::div_mod::lemma_fundamental_div_mod_converse(wi, pt, q1 + ps * h, r0);
    assert(wi / pt == q1 + ps * h);
    // Split the high word into the window part and the rest.
    assert(ps * h == ps * r1 + p64 * (u + ps * k)) by {
        vstd::arithmetic::mul::lemma_mul_is_distributive_add(ps, p64 * k, b);
        vstd::arithmetic::mul::lemma_mul_is_distributive_add(ps, pt * u, r1);
        vstd::arithmetic::mul::lemma_mul_is_associative(ps, p64, k);
        vstd::arithmetic::mul::lemma_mul_is_associative(ps, pt, u);
        vstd::arithmetic::mul::lemma_mul_is_commutative(ps, p64);
        vstd::arithmetic::mul::lemma_mul_is_commutative(ps, pt);
        vstd::arithmetic::mul::lemma_mul_is_associative(p64, ps, k);
        vstd::arithmetic::mul::lemma_mul_is_distributive_add(p64, u, ps * k);
    }
    // The window value is below 2^64.
    assert(q1 < ps) by {
        vstd::arithmetic::div_mod::lemma_multiply_divide_lt(a, pt, ps);
    }
    assert(ps * r1 <= p64 - ps) by {
        vstd::arithmetic::mul::lemma_mul_inequality(r1, pt - 1, ps);
        vstd::arithmetic::mul::lemma_mul_is_distributive_sub(ps, pt, 1);
        vstd::arithmetic::mul::lemma_mul_is_commutative(ps, pt);
        vstd::arithmetic::mul::lemma_mul_is_commutative(r1, ps);
    }
    // Read off quotient and remainder at the 64-bit window.
    assert(wi / pt == (u + ps * k) * p64 + (q1 + ps * r1)) by {
        vstd::arithmetic::mul::lemma_mul_is_commutative(u + ps * k, p64);
    }
    vstd::arithmetic::div_mod::lemma_fundamental_div_mod_converse(
        wi / pt,
        p64,
        u + ps * k,
        q1 + ps * r1,
    );
    assert((wi / pt) % p64 == q1 + ps * r1);
    vstd::arithmetic::mul::lemma_mul_is_commutative(ps, r1);
}

/// Dividing by `pow2(k)` removes `k` bits from the bit length, as long as
/// something is left over.
pub proof fn lemma_bit_len_div(v: nat, k: nat)
    requires
        pow2(k) <= v,
    ensures
        bit_len_of(v / pow2(k)) == bit_len_of(v) - k,
        v / pow2(k) > 0,
    decreases k,
{
    lemma_pow2_pos(k);
    lemma_div_pos_is_pos(v as int, pow2(k) as int);
    assert(v / pow2(k) >= 1) by {
        vstd::arithmetic::div_mod::lemma_div_is_ordered(pow2(k) as int, v as int, pow2(k) as int);
        vstd::arithmetic::div_mod::lemma_div_by_self(pow2(k) as int);
    }
    lemma_bit_len_bounds(v);
    let n = (bit_len_of(v) - 1) as nat;
    assert(pow2(n) <= v < pow2(n + 1));
    // k <= n since pow2(k) <= v < pow2(n+1)
    assert(k <= n) by {
        if k > n {
            lemma_pow2_le(n + 1, k);
            assert(false);
        }
    }
    assert(v / pow2(k) >= pow2((n - k) as nat)) by {
        assert(pow2(k) * pow2((n - k) as nat) == pow2(n)) by {
            lemma_pow2_adds((n - k) as nat, k);
            vstd::arithmetic::mul::lemma_mul_is_commutative(
                pow2(k) as int,
                pow2((n - k) as nat) as int,
            );
        }
        vstd::arithmetic::div_mod::lemma_div_multiples_vanish(
            pow2((n - k) as nat) as int,
            pow2(k) as int,
        );
        vstd::arithmetic::div_mod::lemma_div_is_ordered(
            pow2(n) as int,
            v as int,
            pow2(k) as int,
        );
    }
    assert(v / pow2(k) < pow2((n + 1 - k) as nat)) by {
        assert(pow2(k) * pow2((n + 1 - k) as nat) == pow2(n + 1)) by {
            lemma_pow2_adds((n + 1 - k) as nat, k);
            vstd::arithmetic::mul::lemma_mul_is_commutative(
                pow2(k) as int,
                pow2((n + 1 - k) as nat) as int,
            );
        }
        vstd::arithmetic::div_mod::lemma_multiply_divide_lt(
            v as int,
            pow2(k) as int,
            pow2((n + 1 - k) as nat) as int,
        );
    }
    lemma_bit_len_exact(v / pow2(k), (n - k) as nat);
}

} // verus!
