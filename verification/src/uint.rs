//! The fixed-width unsigned big integer: an arbitrary bit width together
//! with the derived number of 64-bit limbs, stored least-significant first.

use crate::arith::{
    bit_len_of, lemma_bit_len_bounds, lemma_bit_len_gt, lemma_bit_len_le, lemma_pow2_le,
};
use crate::limbs::{
    lemma_bit_len_at_limb, lemma_limbs_val_bound, lemma_limbs_val_high_zero,
    lemma_limbs_val_nonzero, lemma_limbs_val_push, lemma_limbs_val_zero, limbs_val,
};
use vstd::arithmetic::power2::{lemma2_to64, lemma_pow2_adds, lemma_pow2_pos, pow2};
use vstd::prelude::*;

verus! {

/// An unsigned integer of `width` bits, stored as `ceil(width / 64)`
/// little-endian 64-bit limbs.  All bit positions at or above `width` are
/// zero, so the value is always below `2^width`.  A width of zero is valid
/// and holds only the value zero.
#[derive(Clone, Debug, PartialEq, Eq, Hash)]
pub struct Uint {
    /// The bit width of the type instance this value belongs to.
    pub width: usize,
    /// The little-endian limbs; always exactly `ceil(width / 64)` of them.
    pub limbs: Vec<u64>,
}

/// Number of 64-bit limbs needed for `width` bits.
pub open spec fn spec_nlimbs(width: nat) -> nat {
    (width + 63) / 64
}

/// A positive width needs its last limb for bits `64 * (n - 1) .. width`.
pub proof fn lemma_nlimbs_bounds(w: nat)
    requires
        w > 0,
    ensures
        spec_nlimbs(w) >= 1,
        64 * (spec_nlimbs(w) - 1) < w <= 64 * spec_nlimbs(w),
{
    let n = spec_nlimbs(w);
    vstd::arithmetic::div_mod::lemma_fundamental_div_mod((w + 63) as int, 64);
    assert((w + 63) as int == 64 * n + ((w + 63) as int % 64));
    assert(0 <= (w + 63) as int % 64 < 64) by {
        vstd::arithmetic::div_mod::lemma_mod_bound((w + 63) as int, 64);
    }
}

impl View for Uint {
    type V = nat;

    open spec fn view(&self) -> nat {
        limbs_val(self.limbs@)
    }
}

impl Uint {
    /// Structural invariant: the limb count matches the width and the value
    /// respects the width's bit mask.
    pub open spec fn wf(&self) -> bool {
        &&& self.limbs@.len() == spec_nlimbs(self.width as nat)
        &&& self@ < pow2(self.width as nat)
    }

    /// Number of 64-bit limbs needed for `width` bits.
    pub fn nlimbs(width: usize) -> (n: usize)
        ensures
            n == spec_nlimbs(width as nat),
    {
        let q = width / 64;
        let r = width % 64;
        proof {
            vstd::arithmetic::div_mod::lemma_fundamental_div_mod(width as int, 64);
            if r == 0 {
                vstd::arithmetic::div_mod::lemma_fundamental_div_mod_converse(
                    width + 63,
                    64,
                    q as int,
                    63,
                );
            } else {
                vstd::arithmetic::div_mod::lemma_fundamental_div_mod_converse(
                    width + 63,
                    64,
                    q + 1,
                    r - 1,
                );
            }
        }
        if r == 0 {
            q
        } else {
            q + 1
        }
    }

    /// A vector of `n` zero limbs.
    pub(crate) fn zero_limb_vec(n: usize) -> (r: Vec<u64>)
        ensures
            r@.len() == n,
            forall|j: int| 0 <= j < n ==> r@[j] == 0,
            limbs_val(r@) == 0,
    {
        let mut limbs: Vec<u64> = Vec::new();
        let mut i: usize = 0;
        while i < n
            invariant
                i <= n,
                limbs@.len() == i,
                forall|j: int| 0 <= j < i ==> limbs@[j] == 0,
            decreases n - i,
        {
            limbs.push(0);
            i += 1;
        }
        proof {
            lemma_limbs_val_zero(limbs@);
        }
        limbs
    }

    /// The zero value of the given width.
    pub fn zero(width: usize) -> (r: Uint)
        ensures
            r.wf(),
            r.width == width,
            r@ == 0,
    {
        let n = Self::nlimbs(width);
        let limbs = Self::zero_limb_vec(n);
        proof {
            lemma_pow2_pos(width as nat);
        }
        Uint { width, limbs }
    }

    /// The value `x * 2^s`, built directly in place; it must fit the width.
    pub(crate) fn shl_u64(width: usize, x: u64, s: usize) -> (r: Uint)
        requires
            (x as nat) * pow2(s as nat) < pow2(width as nat),
        ensures
            r.wf(),
            r.width == width,
            r@ == (x as nat) * pow2(s as nat),
    {
        if x == 0 {
            proof {
                assert((0 as nat) * pow2(s as nat) == 0);
            }
            return Self::zero(width);
        }
        let n = Self::nlimbs(width);
        let q = s / 64;
        let t = s % 64;
        proof {
            vstd::arithmetic::div_mod::lemma_fundamental_div_mod(s as int, 64);
            vstd::arithmetic::div_mod::lemma_mod_bound(s as int, 64);
            lemma_pow2_pos(s as nat);
            lemma_pow2_pos(width as nat);
            lemma_pow2_pos(64 * q as nat);
            lemma_pow2_pos(t as nat);
            lemma_pow2_adds(64 * q as nat, t as nat);
            // x >= 1, so 2^s <= x * 2^s < 2^width: the shift stays inside.
            assert(pow2(s as nat) <= (x as nat) * pow2(s as nat)) by (nonlinear_arith)
                requires
                    x >= 1,
                    pow2(s as nat) > 0,
            ;
            crate::arith::lemma_bit_len_gt((x as nat) * pow2(s as nat), s as nat);
            crate::arith::lemma_bit_len_le((x as nat) * pow2(s as nat), width as nat);
            assert(s < width);
            lemma_nlimbs_bounds(width as nat);
            assert(64 * q <= s);
            assert(q < n);
        }
        let mut limbs = Self::zero_limb_vec(n);
        let h: u64 = if t == 0 {
            0
        } else {
            proof {
                vstd::bits::lemma_u64_shr_is_div(x, (64 - t) as u64);
            }
            x >> ((64 - t) as u64)
        };
        let l: u64 = if t == 0 {
            x
        } else {
            proof {
                vstd::bits::lemma_u64_pow2_no_overflow((64 - t) as nat);
                vstd::bits::lemma_u64_shl_is_mul(1u64, (64 - t) as u64);
                assert((((1u64 << ((64 - t) as u64)) - 1) as u64) as nat == vstd::bits::low_bits_mask(
                    (64 - t) as nat,
                ));
                vstd::bits::lemma_u64_low_bits_mask_is_mod(x, (64 - t) as nat);
                vstd::bits::lemma_u64_pow2_no_overflow(t as nat);
                vstd::arithmetic::div_mod::lemma_mod_bound(x as int, pow2((64 - t) as nat) as int);
                lemma_pow2_adds((64 - t) as nat, t as nat);
                vstd::arithmetic::mul::lemma_mul_inequality(
                    ((x as nat) % pow2((64 - t) as nat)) as int,
                    pow2((64 - t) as nat) - 1,
                    pow2(t as nat) as int,
                );
                vstd::arithmetic::mul::lemma_mul_is_distributive_sub_other_way(
                    pow2(t as nat) as int,
                    pow2((64 - t) as nat) as int,
                    1,
                );
                lemma2_to64();
                vstd::arithmetic::power2::lemma2_to64_rest();
                vstd::bits::lemma_u64_shl_is_mul(
                    x & (((1u64 << ((64 - t) as u64)) - 1) as u64),
                    t as u64,
                );
            }
            (x & ((1u64 << ((64 - t) as u64)) - 1)) << (t as u64)
        };
        proof {
            // x * 2^t == 2^64 * h + l, laid into limbs q and q + 1.
            lemma2_to64();
            vstd::arithmetic::power2::lemma2_to64_rest();
            if t == 0 {
                vstd::arithmetic::div_mod::lemma_small_mod(x as nat, pow2(64));
                assert((x as nat) * pow2(t as nat) == pow2(64) * (h as nat) + (l as nat));
            } else {
                vstd::arithmetic::div_mod::lemma_fundamental_div_mod(
                    x as int,
                    pow2((64 - t) as nat) as int,
                );
                lemma_pow2_adds((64 - t) as nat, t as nat);
                assert((x as nat) * pow2(t as nat) == pow2(64) * (h as nat) + (l as nat))
                    by (nonlinear_arith)
                    requires
                        x as int == pow2((64 - t) as nat) * (h as int) + ((x as nat) % pow2(
                            (64 - t) as nat,
                        )) as int,
                        l as nat == ((x as nat) % pow2((64 - t) as nat)) * pow2(t as nat),
                        pow2((64 - t) as nat) * pow2(t as nat) == pow2(64),
                ;
            }
            crate::limbs::lemma_limbs_val_update(limbs@, q as int, l);
        }
        let ghost limbs0 = limbs@;
        limbs.set(q, l);
        proof {
            assert(limbs_val(limbs@) == (l as nat) * pow2(64 * q as nat));
        }
        if h != 0 {
            proof {
                // a nonzero carry limb needs position q + 1 inside the width
                assert((x as nat) * pow2(s as nat) >= pow2((64 * q + 64) as nat)) by {
                    assert(h as nat <= (x as nat) / pow2((64 - t) as nat));
                    assert((x as nat) >= pow2((64 - t) as nat)) by {
                        if (x as nat) < pow2((64 - t) as nat) {
                            vstd::arithmetic::div_mod::lemma_basic_div(
                                x as int,
                                pow2((64 - t) as nat) as int,
                            );
                        }
                    }
                    lemma_pow2_adds((64 - t) as nat, s as nat);
                    assert((x as nat) * pow2(s as nat) >= pow2((64 - t) as nat) * pow2(s as nat))
                        by (nonlinear_arith)
                        requires
                            (x as nat) >= pow2((64 - t) as nat),
                            pow2(s as nat) > 0,
                    ;
                    assert((64 - t) + s == 64 * q + 64);
                }
                assert(64 * q + 64 <= width) by {
                    if width < 64 * q + 64 {
                        crate::arith::lemma_pow2_le(width as nat, (64 * q + 64) as nat);
                        assert(false);
                    }
                }
                assert(64 * q + 64 <= 64 * n);
                assert(q + 1 < n);
                crate::limbs::lemma_limbs_val_update(limbs@, q as int + 1, h);
                lemma_pow2_adds(64 * q as nat, 64);
            }
            let ghost limbs1 = limbs@;
            limbs.set(q + 1, h);
            proof {
                assert(limbs_val(limbs@) == (l as nat) * pow2(64 * q as nat) + (h as nat) * pow2(
                    (64 * q + 64) as nat,
                ));
            }
        } else {
            proof {
                assert(limbs_val(limbs@) + (h as nat) * pow2((64 * q + 64) as nat) == limbs_val(
                    limbs@,
                ));
            }
        }
        proof {
            // reassemble: l * 2^(64 q) + h * 2^(64 q + 64) == x * 2^s
            lemma_pow2_adds(64 * q as nat, 64);
            lemma_pow2_adds(t as nat, 64 * q as nat);
            assert((l as nat) * pow2(64 * q as nat) + (h as nat) * pow2((64 * q + 64) as nat) == (
            x as nat) * pow2(s as nat)) by (nonlinear_arith)
                requires
                    (x as nat) * pow2(t as nat) == pow2(64) * (h as nat) + (l as nat),
                    pow2((64 * q + 64) as nat) == pow2(64 * q as nat) * pow2(64),
                    pow2(s as nat) == pow2(t as nat) * pow2(64 * q as nat),
            ;
        }
        Uint { width, limbs }
    }

    /// Builds a value of the given width from its full limb sequence.
    pub fn from_limbs(width: usize, limbs: Vec<u64>) -> (r: Uint)
        requires
            limbs@.len() == spec_nlimbs(width as nat),
            limbs_val(limbs@) < pow2(width as nat),
        ensures
            r.wf(),
            r.width == width,
            r@ == limbs_val(limbs@),
    {
        Uint { width, limbs }
    }

    /// Read access to the limb sequence.
    pub fn as_limbs(&self) -> (r: &Vec<u64>)
        ensures
            r@ == self.limbs@,
    {
        &self.limbs
    }

    /// The bit mask for a width of at most 64 bits: `2^width - 1`.
    pub fn mask64(width: usize) -> (m: u64)
        requires
            width <= 64,
        ensures
            m as nat == (pow2(width as nat) - 1) as nat,
    {
        if width == 64 {
            proof {
                lemma2_to64();
                vstd::arithmetic::power2::lemma2_to64_rest();
            }
            u64::MAX
        } else {
            proof {
                vstd::bits::lemma_u64_pow2_no_overflow(width as nat);
                vstd::bits::lemma_u64_shl_is_mul(1u64, width as u64);
            }
            (1u64 << (width as u64)) - 1
        }
    }

    /// A limb vector of length `n >= 1` holding `x` in limb 0 and zeros above.
    pub(crate) fn single_limb_vec(n: usize, x: u64) -> (r: Vec<u64>)
        requires
            n >= 1,
        ensures
            r@.len() == n,
            limbs_val(r@) == x,
    {
        let mut limbs: Vec<u64> = Vec::new();
        proof {
            lemma_limbs_val_push(limbs@, x);
            lemma2_to64();
            assert(limbs@.len() == 0);
            assert(limbs_val(limbs@) == 0);
            assert(limbs_val(limbs@.push(x)) == x * pow2(0));
        }
        limbs.push(x);
        let mut i: usize = 1;
        while i < n
            invariant
                1 <= i <= n,
                limbs@.len() == i,
                limbs_val(limbs@) == x,
            decreases n - i,
        {
            proof {
                lemma_limbs_val_push(limbs@, 0u64);
            }
            limbs.push(0);
            i += 1;
        }
        limbs
    }

    /// The largest value of the given width: `2^width - 1`.
    pub fn max(width: usize) -> (r: Uint)
        ensures
            r.wf(),
            r.width == width,
            r@ == (pow2(width as nat) - 1) as nat,
    {
        if width == 0 {
            proof {
                lemma2_to64();
            }
            return Self::zero(width);
        }
        let n = Self::nlimbs(width);
        proof {
            lemma_nlimbs_bounds(width as nat);
        }
        let mut limbs: Vec<u64> = Vec::new();
        proof {
            lemma2_to64();
            assert(limbs_val(limbs@) == 0);
        }
        let mut i: usize = 0;
        while i < n - 1
            invariant
                i <= n - 1,
                n == spec_nlimbs(width as nat),
                64 * (n - 1) < width as nat <= 64 * n,
                limbs@.len() == i,
                limbs_val(limbs@) == (pow2(64 * i as nat) - 1) as nat,
            decreases n - i,
        {
            proof {
                lemma_limbs_val_push(limbs@, u64::MAX);
                lemma2_to64();
                vstd::arithmetic::power2::lemma2_to64_rest();
                lemma_pow2_adds(64 * i as nat, 64);
                assert((pow2(64) - 1) * pow2(64 * i as nat) == pow2(64) * pow2(64 * i as nat)
                    - pow2(64 * i as nat)) by (nonlinear_arith);
                assert(64 * (i + 1) as nat == 64 * i as nat + 64);
            }
            limbs.push(u64::MAX);
            i += 1;
        }
        let top_bits = width - 64 * (n - 1);
        let m = Self::mask64(top_bits);
        proof {
            let a = 64 * (n - 1) as nat;
            let t = top_bits as nat;
            lemma_limbs_val_push(limbs@, m);
            lemma_pow2_adds(a, t);
            lemma_pow2_pos(t);
            lemma_pow2_pos(a);
            assert(limbs@.len() == n - 1);
            assert(limbs_val(limbs@.push(m)) == limbs_val(limbs@) + m * pow2(a));
            assert(m == pow2(t) - 1);
            assert((pow2(t) - 1) * pow2(a) == pow2(t) * pow2(a) - pow2(a)) by (nonlinear_arith);
            vstd::arithmetic::mul::lemma_mul_is_commutative(pow2(t) as int, pow2(a) as int);
            assert(limbs_val(limbs@.push(m)) == pow2(a + t) - 1);
            assert(a + t == width as nat);
        }
        limbs.push(m);
        proof {
            lemma_pow2_pos(width as nat);
        }
        Uint { width, limbs }
    }

    /// Constructs a new [`Uint`] of the given width from a `u64`, saturating
    /// at the width's maximum value if the value is too large.
    pub fn const_from_u64(width: usize, x: u64) -> (r: Uint)
        ensures
            r.wf(),
            r.width == width,
            r@ == if (x as nat) < pow2(width as nat) {
                x as nat
            } else {
                (pow2(width as nat) - 1) as nat
            },
    {
        if width == 0 {
            proof {
                lemma2_to64();
            }
            return Self::max(width);
        }
        if width < 64 {
            proof {
                vstd::bits::lemma_u64_pow2_no_overflow(width as nat);
                vstd::bits::lemma_u64_shl_is_mul(1u64, width as u64);
            }
            if x >= (1u64 << (width as u64)) {
                return Self::max(width);
            }
        }
        let n = Self::nlimbs(width);
        proof {
            lemma_nlimbs_bounds(width as nat);
            if width >= 64 {
                lemma2_to64();
                vstd::arithmetic::power2::lemma2_to64_rest();
                lemma_pow2_le(64, width as nat);
            }
        }
        let limbs = Self::single_limb_vec(n, x);
        Uint { width, limbs }
    }

    /// Bit length of a single limb.
    fn u64_bit_len(x: u64) -> (r: usize)
        ensures
            r == bit_len_of(x as nat),
            r <= 64,
    {
        proof {
            lemma2_to64();
            vstd::arithmetic::power2::lemma2_to64_rest();
            crate::arith::lemma_bit_len_le(x as nat, 64);
        }
        let mut v: u64 = x;
        let mut n: usize = 0;
        while v > 0
            invariant
                bit_len_of(x as nat) == n + bit_len_of(v as nat),
                bit_len_of(x as nat) <= 64,
                n <= 64,
            decreases v,
        {
            proof {
                lemma_bit_len_bounds(v as nat);
            }
            v = v / 2;
            n += 1;
        }
        n
    }

    /// Position of the highest set bit plus one; zero for the value zero.
    pub fn bit_len(&self) -> (r: usize)
        requires
            self.wf(),
        ensures
            r == bit_len_of(self@),
            r <= self.width,
    {
        proof {
            lemma_bit_len_le(self@, self.width as nat);
        }
        let mut i: usize = self.limbs.len();
        while i > 0
            invariant
                self.wf(),
                bit_len_of(self@) <= self.width,
                i <= self.limbs@.len(),
                forall|j: int| i <= j < self.limbs@.len() ==> self.limbs@[j] == 0,
            decreases i,
        {
            i -= 1;
            let limb = self.limbs[i];
            if limb != 0 {
                let bl = Self::u64_bit_len(limb);
                proof {
                    lemma_bit_len_at_limb(self.limbs@, i as int);
                }
                return 64 * i + bl;
            }
        }
        proof {
            lemma_limbs_val_zero(self.limbs@);
        }
        0
    }

    /// Returns `true` if `self` is larger than `64 * n` bits.
    pub fn limbs_gt(&self, n: usize) -> (r: bool)
        requires
            self.wf(),
        ensures
            r == (self@ >= pow2(64 * n as nat)),
    {
        if self.limbs.len() < n {
            proof {
                lemma_limbs_val_bound(self.limbs@);
                lemma_pow2_le(64 * self.limbs@.len(), 64 * n as nat);
            }
            return false;
        }

        if self.width <= 512 {
            // Branchless `bitor` chain for smaller widths.
            let mut acc: u64 = 0;
            let mut i: usize = n;
            while i < self.limbs.len()
                invariant
                    n <= i <= self.limbs@.len(),
                    (acc == 0) <==> (forall|j: int| n <= j < i ==> self.limbs@[j] == 0),
                decreases self.limbs@.len() - i,
            {
                let x = self.limbs[i];
                proof {
                    let a = acc;
                    assert((a | x == 0) <==> (a == 0 && x == 0)) by (bit_vector);
                }
                acc = acc | x;
                i += 1;
            }
            proof {
                lemma_limbs_val_high_zero(self.limbs@, n as int);
            }
            acc != 0
        } else {
            let bl = self.bit_len();
            proof {
                lemma_bit_len_gt(self@, 64 * n as nat);
            }
            if bl == 0 {
                false
            } else {
                let r = (bl - 1) / 64 >= n;
                proof {
                    vstd::arithmetic::div_mod::lemma_fundamental_div_mod((bl - 1) as int, 64);
                    vstd::arithmetic::div_mod::lemma_mod_bound((bl - 1) as int, 64);
                    if (bl - 1) / 64 >= n {
                        assert(bl - 1 >= 64 * n);
                    } else {
                        assert((bl - 1) / 64 <= n - 1);
                        assert(bl - 1 <= 64 * ((bl - 1) / 64) + 63);
                        assert(bl - 1 < 64 * n);
                    }
                }
                r
            }
        }
    }

    /// Returns `true` if `self` is larger than 64 bits.
    pub fn gt_u64_max(&self) -> (r: bool)
        requires
            self.wf(),
        ensures
            r == (self@ >= pow2(64)),
    {
        self.limbs_gt(1)
    }

    /// Returns `true` if `self` is larger than 128 bits.
    pub fn gt_u128_max(&self) -> (r: bool)
        requires
            self.wf(),
        ensures
            r == (self@ >= pow2(128)),
    {
        self.limbs_gt(2)
    }

    /// The 64-bit window of the value starting at bit `lo`:
    /// `(self@ / pow2(lo)) % pow2(64)`.
    pub(crate) fn bits_window(&self, lo: usize) -> (r: u64)
        requires
            self.wf(),
        ensures
            r as nat == (self@ / pow2(lo as nat)) % pow2(64),
    {
        let q = lo / 64;
        let t = lo % 64;
        let len = self.limbs.len();
        let a = if q < len {
            self.limbs[q]
        } else {
            0
        };
        let b = if q + 1 < len {
            self.limbs[q + 1]
        } else {
            0
        };
        proof {
            vstd::arithmetic::div_mod::lemma_fundamental_div_mod(lo as int, 64);
            vstd::arithmetic::div_mod::lemma_mod_bound(lo as int, 64);
            crate::limbs::lemma_limb_word(self.limbs@, q as int);
            crate::limbs::lemma_limb_word(self.limbs@, q as int + 1);
            lemma_pow2_pos(64 * q as nat);
            lemma_pow2_pos(t as nat);
            lemma_pow2_pos(64);
            lemma_pow2_adds(64 * q as nat, t as nat);
            lemma_pow2_adds(64 * q as nat, 64);
            vstd::arithmetic::div_mod::lemma_div_denominator(
                self@ as int,
                pow2(64 * q as nat) as int,
                pow2(t as nat) as int,
            );
            vstd::arithmetic::div_mod::lemma_div_denominator(
                self@ as int,
                pow2(64 * q as nat) as int,
                pow2(64) as int,
            );
            assert(64 * (q as int + 1) as nat == 64 * q as nat + 64);
            assert(self@ / pow2(lo as nat) == (self@ / pow2(64 * q as nat)) / pow2(t as nat));
        }
        if t == 0 {
            proof {
                lemma2_to64();
                assert(self@ / pow2(lo as nat) == self@ / pow2(64 * q as nat));
            }
            a
        } else {
            let t64 = t as u64;
            proof {
                vstd::bits::lemma_u64_pow2_no_overflow(t as nat);
                vstd::bits::lemma_u64_shl_is_mul(1u64, t64);
            }
            let m = (1u64 << t64) - 1;
            let bm = b & m;
            proof {
                let w = self@ / pow2(64 * q as nat);
                crate::arith::lemma_word_window(w, t as nat);
                assert(m == (pow2(t as nat) - 1) as u64);
                assert(m as nat == vstd::bits::low_bits_mask(t as nat));
                vstd::bits::lemma_u64_low_bits_mask_is_mod(b, t as nat);
                assert(bm as nat == (b as nat) % pow2(t as nat));
                vstd::bits::lemma_u64_pow2_no_overflow((64 - t) as nat);
                assert(bm as nat * pow2((64 - t) as nat) <= u64::MAX) by {
                    lemma_pow2_adds(t as nat, (64 - t) as nat);
                    vstd::arithmetic::mul::lemma_mul_inequality(
                        bm as int,
                        pow2(t as nat) - 1,
                        pow2((64 - t) as nat) as int,
                    );
                    vstd::arithmetic::mul::lemma_mul_is_distributive_sub_other_way(
                        pow2((64 - t) as nat) as int,
                        pow2(t as nat) as int,
                        1,
                    );
                    vstd::arithmetic::power2::lemma2_to64();
                    vstd::arithmetic::power2::lemma2_to64_rest();
                }
                vstd::bits::lemma_u64_shl_is_mul(bm, (64 - t64) as u64);
                vstd::bits::lemma_u64_shr_is_div(a, t64);
            }
            let hp = bm << (64 - t64);
            proof {
                assert(((a >> t64) | hp) == (a >> t64) + hp) by (bit_vector)
                    requires
                        hp == ((b & (((1u64 << t64) - 1) as u64)) << ((64 - t64) as u64)),
                        m == ((1u64 << t64) - 1) as u64,
                        bm == b & m,
                        1 <= t64 <= 63,
                ;
            }
            (a >> t64) | hp
        }
    }

    /// Whether any of the low `k` bits of the value is set:
    /// `self@ % pow2(k) != 0`.
    pub(crate) fn low_bits_nonzero(&self, k: usize) -> (r: bool)
        requires
            self.wf(),
        ensures
            r == (self@ % pow2(k as nat) != 0),
    {
        let q = k / 64;
        let t = k % 64;
        let len = self.limbs.len();
        let stop = if q < len {
            q
        } else {
            len
        };
        let mut found = false;
        let mut i: usize = 0;
        while i < stop
            invariant
                i <= stop <= self.limbs@.len(),
                found == !(forall|j: int| 0 <= j < i ==> self.limbs@[j] == 0),
            decreases stop - i,
        {
            if self.limbs[i] != 0 {
                found = true;
            }
            i += 1;
        }
        let masked_nonzero = if q < len && t > 0 {
            let t64 = t as u64;
            proof {
                vstd::bits::lemma_u64_pow2_no_overflow(t as nat);
                vstd::bits::lemma_u64_shl_is_mul(1u64, t64);
            }
            let m = (1u64 << t64) - 1;
            proof {
                assert(m as nat == vstd::bits::low_bits_mask(t as nat));
                vstd::bits::lemma_u64_low_bits_mask_is_mod(self.limbs@[q as int], t as nat);
            }
            self.limbs[q] & m != 0
        } else {
            false
        };
        proof {
            vstd::arithmetic::div_mod::lemma_fundamental_div_mod(k as int, 64);
            vstd::arithmetic::div_mod::lemma_mod_bound(k as int, 64);
            lemma_pow2_pos(k as nat);
            lemma2_to64();
            if (q as int) < self.limbs@.len() {
                crate::limbs::lemma_low_bits_split(self.limbs@, q as int, t as nat);
                let low = limbs_val(self.limbs@.subrange(0, q as int));
                let part = (self.limbs@[q as int] as nat) % pow2(t as nat);
                lemma_pow2_pos(64 * q as nat);
                assert(low + pow2(64 * q as nat) * part != 0 <==> (low != 0 || part != 0))
                    by (nonlinear_arith)
                    requires
                        pow2(64 * q as nat) >= 1,
                ;
                if found {
                    let j = choose|j: int| 0 <= j < stop && self.limbs@[j] != 0;
                    lemma_limbs_val_nonzero(self.limbs@.subrange(0, q as int), j);
                } else {
                    lemma_limbs_val_zero(self.limbs@.subrange(0, q as int));
                }
                if t == 0 {
                    assert(part == 0);
                    assert(!masked_nonzero);
                } else {
                    assert(masked_nonzero == (part != 0));
                }
            } else {
                lemma_limbs_val_bound(self.limbs@);
                lemma_pow2_le(64 * self.limbs@.len(), k as nat);
                vstd::arithmetic::div_mod::lemma_small_mod(self@, pow2(k as nat));
                if found {
                    let j = choose|j: int| 0 <= j < stop && self.limbs@[j] != 0;
                    lemma_limbs_val_nonzero(self.limbs@, j);
                } else {
                    lemma_limbs_val_zero(self.limbs@);
                }
            }
        }
        found || masked_nonzero
    }

    /// The bit of the value at position `index`.
    pub fn bit(&self, index: usize) -> (r: bool)
        requires
            self.wf(),
        ensures
            r == ((self@ / pow2(index as nat)) % 2 == 1),
    {
        let w = self.bits_window(index);
        proof {
            lemma2_to64();
            lemma_pow2_adds(1, 63);
            vstd::arithmetic::div_mod::lemma_mod_mod(
                (self@ / pow2(index as nat)) as int,
                2,
                pow2(63) as int,
            );
            assert(w & 1 == w % 2) by (bit_vector);
        }
        (w & 1) == 1
    }

    /// Whether the value is zero.
    pub fn is_zero(&self) -> (r: bool)
        ensures
            r == (self@ == 0),
    {
        let n = self.limbs.len();
        let mut i: usize = 0;
        while i < n
            invariant
                i <= n,
                n == self.limbs@.len(),
                forall|j: int| 0 <= j < i ==> self.limbs@[j] == 0,
            decreases n - i,
        {
            if self.limbs[i] != 0 {
                proof {
                    lemma_limbs_val_nonzero(self.limbs@, i as int);
                }
                return false;
            }
            i += 1;
        }
        proof {
            lemma_limbs_val_zero(self.limbs@);
        }
        true
    }
}

} // verus!
