//! The mathematical value of a little-endian sequence of 64-bit limbs,
//! and the lemmas that relate it to sequence operations.

use crate::arith::lemma_pow2_le;
use vstd::arithmetic::power2::{lemma_pow2_adds, lemma_pow2_pos, pow2};
use vstd::prelude::*;

verus! {

/// Value of a little-endian limb sequence:
/// `s[0] + s[1]*2^64 + s[2]*2^128 + ...`.
pub open spec fn limbs_val(s: Seq<u64>) -> nat
    decreases s.len(),
{
    if s.len() == 0 {
        0
    } else {
        (s[0] + pow2(64) * limbs_val(s.subrange(1, s.len() as int))) as nat
    }
}

/// Appending a limb on the most-significant end adds its weighted value.
pub proof fn lemma_limbs_val_push(s: Seq<u64>, x: u64)
    ensures
        limbs_val(s.push(x)) == limbs_val(s) + x * pow2(64 * s.len()),
    decreases s.len(),
{
    if s.len() == 0 {
        let ps = s.push(x);
        assert(ps.len() == 1);
        assert(ps[s.len() as int] == x);
        let e = ps.subrange(1, 1);
        assert(e =~= Seq::<u64>::empty());
        assert(e.len() == 0);
        assert(limbs_val(e) == 0);
        assert(limbs_val(ps) == (ps[0] + pow2(64) * limbs_val(e)) as nat);
        assert(pow2(0) == 1) by {
            vstd::arithmetic::power2::lemma2_to64();
        }
    } else {
        assert(s.push(x)[0] == s[0]);
        let t = s.subrange(1, s.len() as int);
        assert(s.push(x).subrange(1, s.push(x).len() as int) =~= t.push(x));
        lemma_limbs_val_push(t, x);
        lemma_pow2_adds(64, 64 * t.len());
        assert(limbs_val(s.push(x)) == s[0] + pow2(64) * (limbs_val(t) + x * pow2(64 * t.len())));
        assert(pow2(64) * (limbs_val(t) + x * pow2(64 * t.len()))
            == pow2(64) * limbs_val(t) + pow2(64) * (x * pow2(64 * t.len()))) by (nonlinear_arith);
        assert(pow2(64) * (x * pow2(64 * t.len())) == x * (pow2(64) * pow2(64 * t.len())))
            by (nonlinear_arith);
        assert(64 * s.len() == 64 + 64 * t.len());
    }
}

/// A sequence of `n` limbs encodes a value below `2^(64 n)`.
pub proof fn lemma_limbs_val_bound(s: Seq<u64>)
    ensures
        limbs_val(s) < pow2(64 * s.len()),
    decreases s.len(),
{
    if s.len() == 0 {
        assert(pow2(0) == 1) by {
            vstd::arithmetic::power2::lemma2_to64();
        }
    } else {
        let t = s.subrange(1, s.len() as int);
        lemma_limbs_val_bound(t);
        lemma_pow2_adds(64, 64 * t.len());
        assert(pow2(64) == 0x10000000000000000) by {
            vstd::arithmetic::power2::lemma2_to64();
        }
        assert(s[0] < pow2(64));
        assert(pow2(64) * limbs_val(t) <= pow2(64) * (pow2(64 * t.len()) - 1)) by (nonlinear_arith)
            requires
                limbs_val(t) <= pow2(64 * t.len()) - 1,
        ;
        assert(pow2(64) * (pow2(64 * t.len()) - 1) == pow2(64) * pow2(64 * t.len()) - pow2(64))
            by (nonlinear_arith);
        assert(64 * s.len() == 64 + 64 * t.len());
    }
}

/// The value of a sequence of zero limbs is zero.
pub proof fn lemma_limbs_val_zero(s: Seq<u64>)
    requires
        forall|i: int| 0 <= i < s.len() ==> s[i] == 0,
    ensures
        limbs_val(s) == 0,
    decreases s.len(),
{
    if s.len() > 0 {
        let t = s.subrange(1, s.len() as int);
        lemma_limbs_val_zero(t);
        assert(s[0] == 0);
        assert(limbs_val(s) == (s[0] + pow2(64) * limbs_val(t)) as nat);
    }
}

/// A nonzero limb anywhere makes the whole value nonzero.
pub proof fn lemma_limbs_val_nonzero(s: Seq<u64>, i: int)
    requires
        0 <= i < s.len(),
        s[i] != 0,
    ensures
        limbs_val(s) > 0,
{
    lemma_limbs_val_split(s, i);
    let hi = s.subrange(i, s.len() as int);
    assert(limbs_val(hi) >= hi[0]) by {
        assert(limbs_val(hi) == hi[0] + pow2(64) * limbs_val(
            hi.subrange(1, hi.len() as int),
        ));
        lemma_pow2_pos(64);
        assert(pow2(64) * limbs_val(hi.subrange(1, hi.len() as int)) >= 0);
    }
    lemma_pow2_pos(64 * i as nat);
    assert(pow2(64 * i as nat) * limbs_val(hi) >= limbs_val(hi)) by (nonlinear_arith)
        requires
            pow2(64 * i as nat) >= 1,
            limbs_val(hi) >= 0,
    ;
}

/// Splitting off the low `k` limbs splits the value at weight `2^(64 k)`.
pub proof fn lemma_limbs_val_split(s: Seq<u64>, k: int)
    requires
        0 <= k <= s.len(),
    ensures
        limbs_val(s) == limbs_val(s.subrange(0, k)) + pow2(64 * k as nat) * limbs_val(
            s.subrange(k, s.len() as int),
        ),
    decreases k,
{
    if k == 0 {
        assert(s.subrange(0, 0) =~= Seq::<u64>::empty());
        assert(limbs_val(s.subrange(0, 0)) == 0);
        assert(s.subrange(0, s.len() as int) =~= s);
        assert(pow2(0) == 1) by {
            vstd::arithmetic::power2::lemma2_to64();
        }
        assert(pow2(64 * k as nat) == 1);
    } else {
        let t = s.subrange(1, s.len() as int);
        lemma_limbs_val_split(t, k - 1);
        assert(t.subrange(0, k - 1) =~= s.subrange(0, k).subrange(1, k));
        assert(t.subrange(k - 1, t.len() as int) =~= s.subrange(k, s.len() as int));
        let low = limbs_val(s.subrange(0, k));
        let hi = limbs_val(s.subrange(k, s.len() as int));
        assert(limbs_val(s.subrange(0, k)) == s[0] + pow2(64) * limbs_val(t.subrange(0, k - 1)));
        assert(limbs_val(s) == s[0] + pow2(64) * limbs_val(t));
        assert(limbs_val(t) == limbs_val(t.subrange(0, k - 1)) + pow2(64 * (k - 1) as nat) * hi);
        lemma_pow2_adds(64, 64 * (k - 1) as nat);
        assert(pow2(64) * (limbs_val(t.subrange(0, k - 1)) + pow2(64 * (k - 1) as nat) * hi)
            == pow2(64) * limbs_val(t.subrange(0, k - 1)) + (pow2(64) * pow2(
            64 * (k - 1) as nat,
        )) * hi) by (nonlinear_arith);
        assert(64 * k as nat == 64 + 64 * (k - 1) as nat);
        assert(pow2(64) * pow2(64 * (k - 1) as nat) == pow2(64 * k as nat));
        assert(limbs_val(s) == s[0] + pow2(64) * limbs_val(t.subrange(0, k - 1)) + pow2(
            64 * k as nat,
        ) * hi);
        assert(limbs_val(s) == low + pow2(64 * k as nat) * hi);
    }
}

/// The low `k` limbs are the value modulo `2^(64 k)`; the rest is the
/// quotient.
pub proof fn lemma_limbs_val_skip(s: Seq<u64>, k: int)
    requires
        0 <= k <= s.len(),
    ensures
        limbs_val(s) % pow2(64 * k as nat) == limbs_val(s.subrange(0, k)),
        limbs_val(s) / pow2(64 * k as nat) == limbs_val(s.subrange(k, s.len() as int)),
{
    lemma_limbs_val_split(s, k);
    lemma_limbs_val_bound(s.subrange(0, k));
    lemma_pow2_pos(64 * k as nat);
    vstd::arithmetic::mul::lemma_mul_is_commutative(
        pow2(64 * k as nat) as int,
        limbs_val(s.subrange(k, s.len() as int)) as int,
    );
    vstd::arithmetic::div_mod::lemma_fundamental_div_mod_converse(
        limbs_val(s) as int,
        pow2(64 * k as nat) as int,
        limbs_val(s.subrange(k, s.len() as int)) as int,
        limbs_val(s.subrange(0, k)) as int,
    );
}

/// The limbs from position `k` on are all zero exactly when the value fits
/// in the low `64 k` bits.
pub proof fn lemma_limbs_val_high_zero(s: Seq<u64>, k: int)
    requires
        0 <= k <= s.len(),
    ensures
        (forall|j: int| k <= j < s.len() ==> s[j] == 0) <==> limbs_val(s) < pow2(64 * k as nat),
{
    lemma_limbs_val_split(s, k);
    lemma_limbs_val_bound(s.subrange(0, k));
    lemma_pow2_pos(64 * k as nat);
    let hi = s.subrange(k, s.len() as int);
    if forall|j: int| k <= j < s.len() ==> s[j] == 0 {
        assert(forall|j: int| 0 <= j < hi.len() ==> hi[j] == 0);
        lemma_limbs_val_zero(hi);
    }
    if limbs_val(s) < pow2(64 * k as nat) {
        assert forall|j: int| k <= j < s.len() implies s[j] == 0 by {
            if s[j] != 0 {
                lemma_limbs_val_nonzero(hi, j - k);
                assert(limbs_val(hi) >= 1);
                assert(pow2(64 * k as nat) * limbs_val(hi) >= pow2(64 * k as nat))
                    by (nonlinear_arith)
                    requires
                        pow2(64 * k as nat) >= 1,
                        limbs_val(hi) >= 1,
                ;
                assert(false);
            }
        }
    }
}

/// When limb `i` is the top nonzero limb, the bit length of the whole value
/// is `64 i` plus the bit length of that limb.
pub proof fn lemma_bit_len_at_limb(s: Seq<u64>, i: int)
    requires
        0 <= i < s.len(),
        s[i] != 0,
        forall|j: int| i < j < s.len() ==> s[j] == 0,
    ensures
        crate::arith::bit_len_of(limbs_val(s)) == 64 * i + crate::arith::bit_len_of(s[i] as nat),
{
    lemma_limbs_val_split(s, i);
    let low = limbs_val(s.subrange(0, i));
    let hi = s.subrange(i, s.len() as int);
    lemma_limbs_val_bound(s.subrange(0, i));
    assert(limbs_val(hi) == s[i]) by {
        let rest = hi.subrange(1, hi.len() as int);
        assert(forall|j: int| 0 <= j < rest.len() ==> rest[j] == 0);
        lemma_limbs_val_zero(rest);
        assert(limbs_val(hi) == (hi[0] + pow2(64) * limbs_val(rest)) as nat);
    }
    let a = 64 * i as nat;
    let b = crate::arith::bit_len_of(s[i] as nat);
    crate::arith::lemma_bit_len_bounds(s[i] as nat);
    assert(b >= 1);
    lemma_pow2_adds(a, (b - 1) as nat);
    lemma_pow2_adds(a, b);
    lemma_pow2_pos(a);
    assert(limbs_val(s) == low + pow2(a) * (s[i] as nat));
    assert(pow2(a) * (s[i] as nat) >= pow2(a) * pow2((b - 1) as nat)) by (nonlinear_arith)
        requires
            s[i] as nat >= pow2((b - 1) as nat),
            pow2(a) >= 1,
    ;
    assert(limbs_val(s) >= pow2((a + (b - 1) as nat) as nat));
    assert(limbs_val(s) < pow2(a) + pow2(a) * (s[i] as nat));
    assert(pow2(a) + pow2(a) * (s[i] as nat) == pow2(a) * (1 + s[i] as nat)) by (nonlinear_arith);
    assert(pow2(a) * (1 + s[i] as nat) <= pow2(a) * pow2(b)) by (nonlinear_arith)
        requires
            1 + s[i] as nat <= pow2(b),
            pow2(a) >= 1,
    ;
    assert(limbs_val(s) < pow2(a + b));
    assert(a + (b - 1) as nat == (a + b - 1) as nat);
    crate::arith::lemma_bit_len_exact(limbs_val(s), (a + b - 1) as nat);
}

/// Replacing limb `i` changes the value by the weighted difference.
pub proof fn lemma_limbs_val_update(s: Seq<u64>, i: int, v: u64)
    requires
        0 <= i < s.len(),
    ensures
        limbs_val(s.update(i, v)) == limbs_val(s) - (s[i] as nat) * pow2(64 * i as nat) + (
        v as nat) * pow2(64 * i as nat),
{
    let u = s.update(i, v);
    lemma_limbs_val_split(s, i);
    lemma_limbs_val_split(u, i);
    assert(u.subrange(0, i) =~= s.subrange(0, i));
    let hs = s.subrange(i, s.len() as int);
    let hu = u.subrange(i, u.len() as int);
    assert(hu.subrange(1, hu.len() as int) =~= hs.subrange(1, hs.len() as int));
    let rest = limbs_val(hs.subrange(1, hs.len() as int));
    assert(limbs_val(hs) == (hs[0] + pow2(64) * rest) as nat);
    assert(limbs_val(hu) == (hu[0] + pow2(64) * rest) as nat);
    assert(hs[0] == s[i]);
    assert(hu[0] == v);
    let p = pow2(64 * i as nat) as int;
    assert(p * ((s[i] + pow2(64) * rest) as int) - p * (s[i] as int) + p * (v as int) == p * ((v
        + pow2(64) * rest) as int)) by (nonlinear_arith);
    vstd::arithmetic::mul::lemma_mul_is_commutative(p, s[i] as int);
    vstd::arithmetic::mul::lemma_mul_is_commutative(p, v as int);
}

/// Limb `q` is the 64-bit word of the value at bit offset `64 q`; past the
/// end of the sequence the words are zero.
pub proof fn lemma_limb_word(s: Seq<u64>, q: int)
    requires
        0 <= q,
    ensures
        (limbs_val(s) / pow2(64 * q as nat)) % pow2(64) == if q < s.len() {
            s[q] as nat
        } else {
            0
        },
{
    lemma_pow2_pos(64 * q as nat);
    lemma_pow2_pos(64);
    if q < s.len() {
        lemma_limbs_val_skip(s, q);
        lemma_limbs_val_first(s.subrange(q, s.len() as int));
    } else {
        lemma_limbs_val_bound(s);
        crate::arith::lemma_pow2_le(64 * s.len(), 64 * q as nat);
        vstd::arithmetic::div_mod::lemma_basic_div(
            limbs_val(s) as int,
            pow2(64 * q as nat) as int,
        );
        vstd::arithmetic::div_mod::lemma_small_mod(0, pow2(64));
    }
}

/// The value modulo `2^(64 q + t)` (t < 64): the low `q` limbs plus the low
/// `t` bits of limb `q`, in place.
pub proof fn lemma_low_bits_split(s: Seq<u64>, q: int, t: nat)
    requires
        0 <= q < s.len(),
        t < 64,
    ensures
        limbs_val(s) % pow2((64 * q + t) as nat) == limbs_val(s.subrange(0, q)) + pow2(
            64 * q as nat,
        ) * ((s[q] as nat) % pow2(t)),
{
    let v = limbs_val(s);
    let low = limbs_val(s.subrange(0, q));
    let w = limbs_val(s.subrange(q, s.len() as int));
    let pq = pow2(64 * q as nat) as int;
    let pt = pow2(t) as int;
    lemma_pow2_pos(64 * q as nat);
    lemma_pow2_pos(t);
    lemma_pow2_pos((64 - t) as nat);
    lemma_limbs_val_split(s, q);
    lemma_limbs_val_bound(s.subrange(0, q));
    // The low t bits of the word at offset 64 q are the low t bits of limb q.
    assert(w % pow2(t) == (s[q] as nat) % pow2(t)) by {
        let hi = s.subrange(q, s.len() as int);
        let rest = limbs_val(hi.subrange(1, hi.len() as int));
        assert(w == (hi[0] + pow2(64) * rest) as nat);
        lemma_pow2_adds(t, (64 - t) as nat);
        assert(pow2(64) * rest == pow2(t) * (pow2((64 - t) as nat) * rest) as int) by {
            vstd::arithmetic::mul::lemma_mul_is_associative(
                pow2(t) as int,
                pow2((64 - t) as nat) as int,
                rest as int,
            );
        }
        vstd::arithmetic::div_mod::lemma_mod_multiples_vanish(
            (pow2((64 - t) as nat) * rest) as int,
            s[q] as int,
            pt,
        );
    }
    // Lay v out around the cut at bit 64 q + t.
    let wq = w / pow2(t);
    let wr = (w % pow2(t)) as int;
    vstd::arithmetic::div_mod::lemma_fundamental_div_mod(w as int, pt);
    vstd::arithmetic::div_mod::lemma_mod_bound(w as int, pt);
    lemma_pow2_adds(64 * q as nat, t);
    assert(v == (pq * pt) * wq + (low + pq * wr)) by {
        assert(pq * (pt * wq + wr) == pq * (pt * wq) + pq * wr) by {
            vstd::arithmetic::mul::lemma_mul_is_distributive_add(pq, pt * wq, wr);
        }
        vstd::arithmetic::mul::lemma_mul_is_associative(pq, pt, wq as int);
    }
    assert(low + pq * wr < pq * pt) by {
        vstd::arithmetic::mul::lemma_mul_inequality(wr, pt - 1, pq);
        vstd::arithmetic::mul::lemma_mul_is_distributive_sub(pq, pt, 1);
        vstd::arithmetic::mul::lemma_mul_is_commutative(wr, pq);
    }
    vstd::arithmetic::div_mod::lemma_fundamental_div_mod_converse(
        v as int,
        pq * pt,
        wq as int,
        low + pq * wr,
    );
}

/// The first limb is the value modulo `2^64`; the rest is the quotient.
pub proof fn lemma_limbs_val_first(s: Seq<u64>)
    requires
        s.len() > 0,
    ensures
        limbs_val(s) % pow2(64) == s[0],
        limbs_val(s) / pow2(64) == limbs_val(s.subrange(1, s.len() as int)),
{
    let t = s.subrange(1, s.len() as int);
    assert(pow2(64) == 0x10000000000000000) by {
        vstd::arithmetic::power2::lemma2_to64();
    }
    assert(limbs_val(s) == s[0] + pow2(64) * limbs_val(t));
    vstd::arithmetic::div_mod::lemma_fundamental_div_mod_converse(
        limbs_val(s) as int,
        pow2(64) as int,
        limbs_val(t) as int,
        s[0] as int,
    );
}

} // verus!
