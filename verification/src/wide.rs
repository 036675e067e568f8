//! Fixed-width 384-bit unsigned arithmetic.
//!
//! The price math multiplies a 64-bit token amount by the product of two
//! 128-bit square-root prices and divides the 320-bit result exactly, so it
//! needs integers wider than any machine type. `U384` holds six 64-bit limbs,
//! little-endian; every operation's contract relates the limbs to the
//! mathematical value `val`, and `div_rem` returns the exact Euclidean
//! quotient and remainder.

use vstd::prelude::*;
use vstd::arithmetic::power2::pow2;
use vstd::arithmetic::div_mod::lemma_fundamental_div_mod_converse;

verus! {

/// 2^64, the limb base.
pub const LIMB_BASE: u128 = 0x10000000000000000;

/// A 384-bit unsigned integer as six 64-bit limbs, least significant first.
#[derive(Clone, Copy, Debug, PartialEq, Eq, Structural)]
pub struct U384 {
    pub d0: u64,
    pub d1: u64,
    pub d2: u64,
    pub d3: u64,
    pub d4: u64,
    pub d5: u64,
}

/// The mathematical value of the six limbs.
pub open spec fn val(x: U384) -> int {
    x.d0 as int
        + x.d1 as int * 0x10000000000000000
        + x.d2 as int * 0x100000000000000000000000000000000
        + x.d3 as int * 0x1000000000000000000000000000000000000000000000000
        + x.d4 as int * 0x10000000000000000000000000000000000000000000000000000000000000000
        + x.d5 as int * 0x100000000000000000000000000000000000000000000000000000000000000000000000000000000
}

/// Every value is within `[0, 2^384)`.
pub proof fn lemma_val_bounds(x: U384)
    ensures
        0 <= val(x),
        val(x) < 0x1000000000000000000000000000000000000000000000000000000000000000000000000000000000000000000000000,
{
}

impl U384 {
    /// The zero value.
    pub fn zero() -> (r: U384)
        ensures
            val(r) == 0,
    {
        U384 { d0: 0, d1: 0, d2: 0, d3: 0, d4: 0, d5: 0 }
    }

    /// Widens a 128-bit value.
    pub fn from_u128(x: u128) -> (r: U384)
        ensures
            val(r) == x,
    {
        U384 {
            d0: (x % LIMB_BASE) as u64,
            d1: (x / LIMB_BASE) as u64,
            d2: 0,
            d3: 0,
            d4: 0,
            d5: 0,
        }
    }

    /// Narrows back to 128 bits; `None` exactly when the value is too large.
    pub fn to_u128(&self) -> (r: Option<u128>)
        ensures
            match r {
                Some(v) => v == val(*self) && val(*self) < 0x100000000000000000000000000000000,
                None => val(*self) >= 0x100000000000000000000000000000000,
            },
    {
        if self.d2 == 0 && self.d3 == 0 && self.d4 == 0 && self.d5 == 0 {
            Some(self.d0 as u128 + self.d1 as u128 * LIMB_BASE)
        } else {
            None
        }
    }

    /// Doubles the value and adds a carried-in bit.
    pub fn double_plus(&self, bit: bool) -> (r: U384)
        requires
            val(*self)
                < 0x800000000000000000000000000000000000000000000000000000000000000000000000000000000000000000000000,
    ensures
            val(r) == 2 * val(*self) + if bit { 1int } else { 0int },
    {
        let b: u128 = if bit { 1 } else { 0 };
        let t0: u128 = self.d0 as u128 * 2 + b;
        let t1: u128 = self.d1 as u128 * 2 + t0 / LIMB_BASE;
        let t2: u128 = self.d2 as u128 * 2 + t1 / LIMB_BASE;
        let t3: u128 = self.d3 as u128 * 2 + t2 / LIMB_BASE;
        let t4: u128 = self.d4 as u128 * 2 + t3 / LIMB_BASE;
        let t5: u128 = self.d5 as u128 * 2 + t4 / LIMB_BASE;
        let r = U384 {
            d0: (t0 % LIMB_BASE) as u64,
            d1: (t1 % LIMB_BASE) as u64,
            d2: (t2 % LIMB_BASE) as u64,
            d3: (t3 % LIMB_BASE) as u64,
            d4: (t4 % LIMB_BASE) as u64,
            d5: (t5 % LIMB_BASE) as u64,
        };
        proof {
            // The requirement keeps the top limb below 2^63, so no carry
            // leaves the top limb and the limb identities telescope.
            assert(self.d5 < 0x8000000000000000);
            assert(t5 as int / LIMB_BASE as int == 0);
        }
        r
    }

    /// Halves the value (the low bit is discarded).
    pub fn halve(&self) -> (r: U384)
        ensures
            val(r) == val(*self) / 2,
    {
        let r5: u64 = self.d5 / 2;
        let r4: u64 = self.d4 / 2 + (self.d5 % 2) * 0x8000000000000000;
        let r3: u64 = self.d3 / 2 + (self.d4 % 2) * 0x8000000000000000;
        let r2: u64 = self.d2 / 2 + (self.d3 % 2) * 0x8000000000000000;
        let r1: u64 = self.d1 / 2 + (self.d2 % 2) * 0x8000000000000000;
        let r0: u64 = self.d0 / 2 + (self.d1 % 2) * 0x8000000000000000;
        let r = U384 { d0: r0, d1: r1, d2: r2, d3: r3, d4: r4, d5: r5 };
        proof {
            assert(val(*self) == 2 * val(r) + (self.d0 % 2));
            lemma_fundamental_div_mod_converse(val(*self), 2, val(r), self.d0 as int % 2);
        }
        r
    }

    /// Compares values: true exactly when `self >= other`.
    pub fn ge(&self, other: &U384) -> (r: bool)
        ensures
            r == (val(*self) >= val(*other)),
    {
        if self.d5 != other.d5 {
            self.d5 > other.d5
        } else if self.d4 != other.d4 {
            self.d4 > other.d4
        } else if self.d3 != other.d3 {
            self.d3 > other.d3
        } else if self.d2 != other.d2 {
            self.d2 > other.d2
        } else if self.d1 != other.d1 {
            self.d1 > other.d1
        } else {
            self.d0 >= other.d0
        }
    }

    /// Subtracts a smaller or equal value.
    pub fn sub(&self, other: &U384) -> (r: U384)
        requires
            val(*self) >= val(*other),
        ensures
            val(r) == val(*self) - val(*other),
    {
        let t0: u128 = self.d0 as u128 + LIMB_BASE - other.d0 as u128;
        let t1: u128 = self.d1 as u128 + LIMB_BASE - 1 + t0 / LIMB_BASE - other.d1 as u128;
        let t2: u128 = self.d2 as u128 + LIMB_BASE - 1 + t1 / LIMB_BASE - other.d2 as u128;
        let t3: u128 = self.d3 as u128 + LIMB_BASE - 1 + t2 / LIMB_BASE - other.d3 as u128;
        let t4: u128 = self.d4 as u128 + LIMB_BASE - 1 + t3 / LIMB_BASE - other.d4 as u128;
        let t5: u128 = self.d5 as u128 + LIMB_BASE - 1 + t4 / LIMB_BASE - other.d5 as u128;
        let r = U384 {
            d0: (t0 % LIMB_BASE) as u64,
            d1: (t1 % LIMB_BASE) as u64,
            d2: (t2 % LIMB_BASE) as u64,
            d3: (t3 % LIMB_BASE) as u64,
            d4: (t4 % LIMB_BASE) as u64,
            d5: (t5 % LIMB_BASE) as u64,
        };
        proof {
            // The borrow chain computes self - other + (1 - top borrow) * 2^384;
            // since the difference is non-negative and below 2^384, the final
            // quotient t5 / 2^64 must be 1 (no borrow out).
            assert(val(r) == val(*self) - val(*other) + (1 - t5 as int / LIMB_BASE as int)
                * 0x1000000000000000000000000000000000000000000000000000000000000000000000000000000000000000000000000);
            lemma_val_bounds(r);
            lemma_val_bounds(*self);
            lemma_val_bounds(*other);
        }
        r
    }

    /// Shifts the value left by one full limb (multiplies by 2^64).
    pub fn shl64(&self) -> (r: U384)
        requires
            self.d5 == 0,
        ensures
            val(r) == val(*self) * 0x10000000000000000,
    {
        U384 { d0: 0, d1: self.d0, d2: self.d1, d3: self.d2, d4: self.d3, d5: self.d4 }
    }
}

/// Full 128-by-128-bit multiplication into a 384-bit result (the top limbs
/// stay clear: the product is below 2^256).
pub fn mul_u128(a: u128, b: u128) -> (r: U384)
    ensures
        val(r) == a * b,
        r.d4 == 0,
        r.d5 == 0,
{
    let a0: u128 = a % LIMB_BASE;
    let a1: u128 = a / LIMB_BASE;
    let b0: u128 = b % LIMB_BASE;
    let b1: u128 = b / LIMB_BASE;
    proof {
        assert(a0 * b0 < 0x100000000000000000000000000000000) by (nonlinear_arith)
            requires a0 < 0x10000000000000000 && b0 < 0x10000000000000000;
        assert(a0 * b1 < 0x100000000000000000000000000000000) by (nonlinear_arith)
            requires a0 < 0x10000000000000000 && b1 < 0x10000000000000000;
        assert(a1 * b0 < 0x100000000000000000000000000000000) by (nonlinear_arith)
            requires a1 < 0x10000000000000000 && b0 < 0x10000000000000000;
        assert(a1 * b1 < 0x100000000000000000000000000000000) by (nonlinear_arith)
            requires a1 < 0x10000000000000000 && b1 < 0x10000000000000000;
    }
    let p00: u128 = a0 * b0;
    let p01: u128 = a0 * b1;
    let p10: u128 = a1 * b0;
    let p11: u128 = a1 * b1;
    let t1: u128 = p00 / LIMB_BASE + p01 % LIMB_BASE + p10 % LIMB_BASE;
    let t2: u128 = t1 / LIMB_BASE + p01 / LIMB_BASE + p10 / LIMB_BASE + p11 % LIMB_BASE;
    let t3: u128 = t2 / LIMB_BASE + p11 / LIMB_BASE;
    let r = U384 {
        d0: (p00 % LIMB_BASE) as u64,
        d1: (t1 % LIMB_BASE) as u64,
        d2: (t2 % LIMB_BASE) as u64,
        d3: (t3 % LIMB_BASE) as u64,
        d4: (t3 / LIMB_BASE) as u64,
        d5: 0,
    };
    proof {
        assert(a * b == p11 * 0x100000000000000000000000000000000
            + p01 * 0x10000000000000000 + p10 * 0x10000000000000000 + p00) by (nonlinear_arith)
            requires
                a == a1 * 0x10000000000000000 + a0,
                b == b1 * 0x10000000000000000 + b0,
                p00 == a0 * b0,
                p01 == a0 * b1,
                p10 == a1 * b0,
                p11 == a1 * b1;
        assert((t3 as int) / (LIMB_BASE as int) < 0x10000000000000000);
        assert(a * b < 0x10000000000000000000000000000000000000000000000000000000000000000)
            by (nonlinear_arith)
            requires
                a < 0x100000000000000000000000000000000,
                b < 0x100000000000000000000000000000000;
    }
    r
}

/// Multiplies a value below 2^256 by a 64-bit factor; the 320-bit result
/// cannot overflow six limbs.
pub fn mul_u64(x: &U384, m: u64) -> (r: U384)
    requires
        x.d4 == 0,
        x.d5 == 0,
    ensures
        val(r) == val(*x) * m,
        r.d5 == 0,
{
    let mm: u128 = m as u128;
    proof {
        assert(x.d0 as int * mm < 0x100000000000000000000000000000000 - 0x10000000000000000)
            by (nonlinear_arith)
            requires x.d0 < 0x10000000000000000 && 0 <= mm < 0x10000000000000000;
        assert(x.d1 as int * mm < 0x100000000000000000000000000000000 - 0x10000000000000000)
            by (nonlinear_arith)
            requires x.d1 < 0x10000000000000000 && 0 <= mm < 0x10000000000000000;
        assert(x.d2 as int * mm < 0x100000000000000000000000000000000 - 0x10000000000000000)
            by (nonlinear_arith)
            requires x.d2 < 0x10000000000000000 && 0 <= mm < 0x10000000000000000;
        assert(x.d3 as int * mm < 0x100000000000000000000000000000000 - 0x10000000000000000)
            by (nonlinear_arith)
            requires x.d3 < 0x10000000000000000 && 0 <= mm < 0x10000000000000000;
    }
    let t0: u128 = x.d0 as u128 * mm;
    let t1: u128 = x.d1 as u128 * mm + t0 / LIMB_BASE;
    let t2: u128 = x.d2 as u128 * mm + t1 / LIMB_BASE;
    let t3: u128 = x.d3 as u128 * mm + t2 / LIMB_BASE;
    let r = U384 {
        d0: (t0 % LIMB_BASE) as u64,
        d1: (t1 % LIMB_BASE) as u64,
        d2: (t2 % LIMB_BASE) as u64,
        d3: (t3 % LIMB_BASE) as u64,
        d4: (t3 / LIMB_BASE) as u64,
        d5: 0,
    };
    proof {
        assert((x.d0 as int + x.d1 as int * 0x10000000000000000
            + x.d2 as int * 0x100000000000000000000000000000000
            + x.d3 as int * 0x1000000000000000000000000000000000000000000000000) * mm
            == x.d0 as int * mm
                + (x.d1 as int * mm) * 0x10000000000000000
                + (x.d2 as int * mm) * 0x100000000000000000000000000000000
                + (x.d3 as int * mm) * 0x1000000000000000000000000000000000000000000000000)
            by (nonlinear_arith);
    }
    r
}

/// Concrete value of 2^384 as a power-of-two fact.
proof fn lemma_pow2_384()
    ensures
        pow2(384) == 0x1000000000000000000000000000000000000000000000000000000000000000000000000000000000000000000000000,
{
    vstd::arithmetic::power2::lemma2_to64();
    assert(pow2(64) == 0x10000000000000000);
    assert(pow2(128) == 0x100000000000000000000000000000000) by {
        vstd::arithmetic::power2::lemma_pow2_adds(64, 64);
    }
    assert(pow2(256) == 0x10000000000000000000000000000000000000000000000000000000000000000) by {
        vstd::arithmetic::power2::lemma_pow2_adds(128, 128);
    }
    assert(pow2(384) == pow2(256) * pow2(128)) by {
        vstd::arithmetic::power2::lemma_pow2_adds(256, 128);
    }
}

/// Euclidean division: returns the quotient and remainder of `n / m` by
/// binary long division (double the divisor past `n`, then shift it back
/// down, subtracting wherever it fits).
pub fn div_rem(n: &U384, m: &U384) -> (qr: (U384, U384))
    requires
        val(*m) >= 1,
        val(*n)
            < 0x800000000000000000000000000000000000000000000000000000000000000000000000000000000000000000000000,
    ensures
        val(qr.0) == val(*n) / val(*m),
        val(qr.1) == val(*n) % val(*m),
{
    let mut d: U384 = *m;
    let mut k: usize = 0;
    proof {
        vstd::arithmetic::power2::lemma2_to64();
    }
    while n.ge(&d)
        invariant
            val(d) == val(*m) * pow2(k as nat),
            val(*m) >= 1,
            val(d) >= 1,
            val(d) <= 2 * val(*n) + val(*m),
            val(*n)
                < 0x800000000000000000000000000000000000000000000000000000000000000000000000000000000000000000000000,
            k <= 384,
        decreases 2 * val(*n) + val(*m) - val(d),
    {
        proof {
            // Doubling keeps the shifted-divisor shape: m * 2^k doubled is
            // m * 2^(k+1).
            vstd::arithmetic::power2::lemma_pow2_unfold((k + 1) as nat);
            assert(val(*m) * (2 * pow2(k as nat)) == 2 * (val(*m) * pow2(k as nat)))
                by (nonlinear_arith);
            assert(pow2(k as nat) >= 1) by {
                vstd::arithmetic::power2::lemma_pow2_pos(k as nat);
            }
            // The divisor never leaves 384 bits, so neither can 2^k.
            assert(pow2(k as nat) <= val(d)) by (nonlinear_arith)
                requires val(*m) >= 1 && pow2(k as nat) >= 1 && val(d) == val(*m) * pow2(k as nat);
            lemma_val_bounds(d);
            assert(k < 384) by {
                lemma_pow2_384();
                if k >= 384 {
                    if k > 384 {
                        vstd::arithmetic::power2::lemma_pow2_strictly_increases(384, k as nat);
                    }
                }
            }
        }
        d = d.double_plus(false);
        k = k + 1;
    }
    let mut q = U384::zero();
    let mut r: U384 = *n;
    while k > 0
        invariant
            val(*n) == val(q) * val(d) + val(r),
            0 <= val(r) < val(d),
            val(d) == val(*m) * pow2(k as nat),
            val(*m) >= 1,
            val(*n)
                < 0x800000000000000000000000000000000000000000000000000000000000000000000000000000000000000000000000,
        decreases k,
    {
        proof {
            // With k >= 1 the divisor is even: m * 2^k == (m * 2^(k-1)) * 2.
            vstd::arithmetic::power2::lemma_pow2_unfold(k as nat);
            assert(val(*m) * (2 * pow2((k - 1) as nat)) == 2 * (val(*m) * pow2((k - 1) as nat)))
                by (nonlinear_arith);
            vstd::arithmetic::power2::lemma_pow2_pos((k - 1) as nat);
            assert(val(*m) * pow2((k - 1) as nat) >= 1) by (nonlinear_arith)
                requires val(*m) >= 1 && pow2((k - 1) as nat) >= 1;
        }
        let ghost dv: int = val(d);
        d = d.halve();
        k = k - 1;
        proof {
            assert(dv == 2 * (val(*m) * pow2(k as nat)));
            assert(val(d) == val(*m) * pow2(k as nat));
            // Quotient headroom: q * d + r == n and d >= 1 give q <= n.
            assert(val(q) <= val(q) * dv) by (nonlinear_arith)
                requires val(q) >= 0 && dv >= 2;
        }
        let take = r.ge(&d);
        let ghost qv: int = val(q);
        let ghost rv: int = val(r);
        q = q.double_plus(take);
        if take {
            r = r.sub(&d);
        }
        proof {
            if take {
                assert((2 * qv + 1) * val(d) + (rv - val(d)) == qv * (2 * val(d)) + rv)
                    by (nonlinear_arith);
            } else {
                assert((2 * qv) * val(d) + rv == qv * (2 * val(d)) + rv) by (nonlinear_arith);
            }
        }
    }
    proof {
        assert(pow2(0) == 1) by {
            vstd::arithmetic::power2::lemma2_to64();
        }
        assert(val(d) == val(*m));
        lemma_fundamental_div_mod_converse(val(*n), val(*m), val(q), val(r));
    }
    (q, r)
}

} // verus!
