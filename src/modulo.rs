//! A residue `remainder` modulo `modulo`, with the machine's truncating remainder.
use crate::arith::{
    abs, congruent, lemma_congruent_mul, lemma_congruent_symm, lemma_congruent_trans, lemma_multiple,
    lemma_product_fits, products_fit,
    lemma_trem_basic, lemma_trem_mul, lemma_trem_small, lemma_trem_unique, rem_i64, trem,
};
use crate::error::ModopError;
use crate::gcd::{gcd, gcd_in_range, inverse, lemma_inverse_exists, modinv, spec_gcd};
use vstd::arithmetic::power::{lemma_pow0, lemma_pow1, lemma_pow_adds, pow};
use vstd::prelude::*;

verus! {

/// `x` fits in an `i64`.
pub open spec fn fits(x: int) -> bool {
    i64::MIN <= x <= i64::MAX
}

/// A value modulo `modulo`. The remainder keeps the sign that the machine remainder
/// gives it, so it may be negative; it is normalised only on request.
#[derive(Clone, Copy, Debug)]
pub struct ModInt {
    pub remainder: i64,
    pub modulo: i64,
}

impl ModInt {
    /// The modulus is non-zero and the remainder is smaller than it in magnitude.
    pub open spec fn wf(self) -> bool {
        self.modulo != 0 && abs(self.remainder as int) < abs(self.modulo as int)
    }

    /// Products of two remainders cannot overflow.
    pub open spec fn small_modulus(self) -> bool {
        products_fit(self.modulo as int)
    }

    /// The value `value % modulo`.
    pub fn new(value: i64, modulo: i64) -> (r: ModInt)
        requires
            modulo != 0,
            !(value == i64::MIN && modulo == -1),
        ensures
            r.wf(),
            r.remainder == trem(value as int, modulo as int),
            r.modulo == modulo,
    {
        proof {
            lemma_trem_basic(value as int, modulo as int);
        }
        let remainder = rem_i64(value, modulo);
        ModInt { remainder, modulo }
    }

    /// The remainder of `self.remainder` to the power `n`, by square and multiply,
    /// reducing after every product. `self` is left as it is.
    pub fn pow(&mut self, n: usize) -> (r: i64)
        requires
            old(self).wf(),
            old(self).small_modulus(),
        ensures
            *final(self) == *old(self),
            r == trem(pow(old(self).remainder as int, n as nat), old(self).modulo as int),
    {
        let m = self.modulo;
        let ghost base = self.remainder as int;
        let mut k: usize = n;
        let mut a: i64 = self.remainder;
        proof {
            lemma_trem_basic(1, m as int);
        }
        let mut ans: i64 = rem_i64(1, m);
        let ghost mut e: nat = 0;
        let ghost mut p: nat = 1;
        proof {
            lemma_pow0(base);
            lemma_pow1(base);
            lemma_trem_small(base, m as int);
        }
        while k > 0
            invariant
                m == self.modulo,
                base == self.remainder,
                self.wf(),
                self.small_modulus(),
                p >= 1,
                e + p * k == n,
                a == trem(pow(base, p), m as int),
                ans == trem(pow(base, e), m as int),
                abs(ans as int) < abs(m as int),
            decreases k,
        {
            proof {
                lemma_trem_basic(pow(base, p), m as int);
                lemma_product_fits(ans as int, a as int, m as int);
            }
            let ghost e_prev = e;
            if k & 1 == 1 {
                proof {
                    lemma_pow_adds(base, e, p);
                    lemma_trem_mul(pow(base, e), pow(base, p), m as int);
                    lemma_trem_basic(ans * a, m as int);
                }
                ans = rem_i64(ans * a, m);
                proof {
                    e = e + p;
                }
            }
            assert(k & 1 == k % 2) by (bit_vector);
            assert(k >> 1 == k / 2) by (bit_vector);
            let ghost k_old = k;
            k = k >> 1;
            proof {
                assert(e + p * (2 * k) == n) by (nonlinear_arith)
                    requires
                        k_old == 2 * k + k_old % 2,
                        e == e_prev + (if k_old % 2 == 1 { p } else { 0 }),
                        e_prev + p * k_old == n,
                ;
            }
            if k > 0 {
                proof {
                    lemma_product_fits(a as int, a as int, m as int);
                    lemma_pow_adds(base, p, p);
                    lemma_trem_mul(pow(base, p), pow(base, p), m as int);
                    lemma_trem_basic(a * a, m as int);
                }
                a = rem_i64(a * a, m);
                proof {
                    p = p + p;
                    assert(e + p * k == n) by (nonlinear_arith)
                        requires
                            e + (p / 2) * (2 * k) == n,
                            p % 2 == 0,
                    ;
                }
            }
        }
        ans
    }

    /// Raises the remainder to the power `n` in place and returns the new remainder.
    pub fn pow_into(&mut self, n: usize) -> (r: i64)
        requires
            old(self).wf(),
            old(self).small_modulus(),
        ensures
            r == trem(pow(old(self).remainder as int, n as nat), old(self).modulo as int),
            *final(self) == (ModInt { remainder: r, ..*old(self) }),
            final(self).wf(),
    {
        self.pow_inplace(n);
        self.remainder
    }

    /// Raises the remainder to the power `n` in place.
    pub fn pow_inplace(&mut self, n: usize)
        requires
            old(self).wf(),
            old(self).small_modulus(),
        ensures
            final(self).remainder == trem(
                pow(old(self).remainder as int, n as nat),
                old(self).modulo as int,
            ),
            final(self).modulo == old(self).modulo,
            final(self).wf(),
    {
        let r = self.pow(n);
        proof {
            lemma_trem_basic(pow(self.remainder as int, n as nat), self.modulo as int);
        }
        self.remainder = r;
    }

    /// The sum, reduced by the modulus. Both operands must share it.
    pub fn add(self, rhs: ModInt) -> (r: ModInt)
        requires
            self.wf(),
            rhs.wf(),
            self.modulo == rhs.modulo,
            fits(self.remainder + rhs.remainder),
        ensures
            r.wf(),
            r.modulo == self.modulo,
            r.remainder == trem(self.remainder + rhs.remainder, self.modulo as int),
    {
        let modulo = self.modulo;
        proof {
            lemma_trem_basic(self.remainder + rhs.remainder, modulo as int);
        }
        let remainder = rem_i64(self.remainder + rhs.remainder, modulo);
        ModInt { remainder, modulo }
    }

    /// The difference, reduced by the modulus. Both operands must share it.
    pub fn sub(self, rhs: ModInt) -> (r: ModInt)
        requires
            self.wf(),
            rhs.wf(),
            self.modulo == rhs.modulo,
            fits(self.remainder - rhs.remainder),
        ensures
            r.wf(),
            r.modulo == self.modulo,
            r.remainder == trem(self.remainder - rhs.remainder, self.modulo as int),
    {
        let modulo = self.modulo;
        proof {
            lemma_trem_basic(self.remainder - rhs.remainder, modulo as int);
        }
        let remainder = rem_i64(self.remainder - rhs.remainder, modulo);
        ModInt { remainder, modulo }
    }

    /// The product, reduced by the modulus. Both operands must share it.
    pub fn mul(self, rhs: ModInt) -> (r: ModInt)
        requires
            self.wf(),
            rhs.wf(),
            self.modulo == rhs.modulo,
            fits(self.remainder * rhs.remainder),
        ensures
            r.wf(),
            r.modulo == self.modulo,
            r.remainder == trem(self.remainder * rhs.remainder, self.modulo as int),
    {
        let modulo = self.modulo;
        proof {
            lemma_trem_basic(self.remainder * rhs.remainder, modulo as int);
            if modulo == -1 {
                assert(self.remainder * rhs.remainder == 0) by (nonlinear_arith)
                    requires
                        self.remainder == 0,
                ;
            }
        }
        let remainder = rem_i64(self.remainder * rhs.remainder, modulo);
        ModInt { remainder, modulo }
    }

    /// The quotient: `self` times the inverse of `rhs`, reduced by the modulus.
    /// `rhs` must be invertible, and both operands must share the modulus.
    pub fn div(self, rhs: ModInt) -> (r: ModInt)
        requires
            self.wf(),
            rhs.wf(),
            self.modulo == rhs.modulo,
            gcd_in_range(rhs.remainder as int, rhs.modulo as int),
            spec_gcd(rhs.remainder as int, rhs.modulo as int) == 1,
            fits(self.remainder * inverse(rhs.remainder as int, rhs.modulo as int)),
        ensures
            r.wf(),
            r.modulo == self.modulo,
            r.remainder == trem(
                self.remainder * inverse(rhs.remainder as int, rhs.modulo as int),
                self.modulo as int,
            ),
    {
        let modulo = self.modulo;
        match modinv(rhs.remainder, modulo) {
            Ok(i) => {
                proof {
                    lemma_trem_basic(self.remainder * i, modulo as int);
                    if modulo == -1 {
                        assert(self.remainder * i == 0) by (nonlinear_arith)
                            requires
                                self.remainder == 0,
                        ;
                    }
                }
                let remainder = rem_i64(self.remainder * i, modulo);
                ModInt { remainder, modulo }
            },
            Err(_) => self,
        }
    }

    /// Division that reports its failures: different moduli, or a divisor that
    /// shares a factor with the modulus.
    pub fn try_div(self, rhs: ModInt) -> (r: Result<ModInt, ModopError>)
        requires
            self.wf(),
            rhs.wf(),
            gcd_in_range(rhs.remainder as int, rhs.modulo as int),
            self.modulo == rhs.modulo && spec_gcd(rhs.remainder as int, rhs.modulo as int) == 1
                ==> fits(self.remainder * inverse(rhs.remainder as int, rhs.modulo as int)),
        ensures
            self.modulo != rhs.modulo ==> r == Err::<ModInt, ModopError>(
                ModopError::DifferentModulos { op: "divide" },
            ),
            self.modulo == rhs.modulo && spec_gcd(rhs.remainder as int, rhs.modulo as int) != 1
                ==> r == Err::<ModInt, ModopError>(
                ModopError::NotRelativelyPrime { remainder: rhs.remainder, modulo: rhs.modulo },
            ),
            self.modulo == rhs.modulo && spec_gcd(rhs.remainder as int, rhs.modulo as int) == 1
                ==> r == Ok::<ModInt, ModopError>(
                ModInt {
                    remainder: trem(
                        self.remainder * inverse(rhs.remainder as int, rhs.modulo as int),
                        self.modulo as int,
                    ) as i64,
                    modulo: self.modulo,
                },
            ),
    {
        if self.modulo != rhs.modulo {
            return Err(ModopError::DifferentModulos { op: "divide" });
        }
        if gcd(rhs.remainder, rhs.modulo) != 1 {
            return Err(ModopError::NotRelativelyPrime { remainder: rhs.remainder, modulo: rhs.modulo });
        }
        Ok(self.div(rhs))
    }

    /// `self = self + rhs`.
    pub fn add_assign(&mut self, rhs: ModInt)
        requires
            old(self).wf(),
            rhs.wf(),
            old(self).modulo == rhs.modulo,
            fits(old(self).remainder + rhs.remainder),
        ensures
            final(self).wf(),
            final(self).modulo == old(self).modulo,
            final(self).remainder == trem(old(self).remainder + rhs.remainder, old(self).modulo as int),
    {
        *self = self.add(rhs);
    }

    /// `self = self - rhs`.
    pub fn sub_assign(&mut self, rhs: ModInt)
        requires
            old(self).wf(),
            rhs.wf(),
            old(self).modulo == rhs.modulo,
            fits(old(self).remainder - rhs.remainder),
        ensures
            final(self).wf(),
            final(self).modulo == old(self).modulo,
            final(self).remainder == trem(old(self).remainder - rhs.remainder, old(self).modulo as int),
    {
        *self = self.sub(rhs);
    }

    /// `self = self * rhs`.
    pub fn mul_assign(&mut self, rhs: ModInt)
        requires
            old(self).wf(),
            rhs.wf(),
            old(self).modulo == rhs.modulo,
            fits(old(self).remainder * rhs.remainder),
        ensures
            final(self).wf(),
            final(self).modulo == old(self).modulo,
            final(self).remainder == trem(old(self).remainder * rhs.remainder, old(self).modulo as int),
    {
        *self = self.mul(rhs);
    }

    /// `self = self / rhs`.
    pub fn div_assign(&mut self, rhs: ModInt)
        requires
            old(self).wf(),
            rhs.wf(),
            old(self).modulo == rhs.modulo,
            gcd_in_range(rhs.remainder as int, rhs.modulo as int),
            spec_gcd(rhs.remainder as int, rhs.modulo as int) == 1,
            fits(old(self).remainder * inverse(rhs.remainder as int, rhs.modulo as int)),
        ensures
            final(self).wf(),
            final(self).modulo == old(self).modulo,
            final(self).remainder == trem(
                old(self).remainder * inverse(rhs.remainder as int, rhs.modulo as int),
                old(self).modulo as int,
            ),
    {
        *self = self.div(rhs);
    }

    /// The representative in `[0, |modulo|)`: the remainder itself when it is
    /// not negative, else the remainder plus `|modulo|`.
    pub fn remainder_pos(&self) -> (r: i64)
        requires
            self.wf(),
        ensures
            r == (if self.remainder >= 0 {
                self.remainder as int
            } else {
                self.remainder + abs(self.modulo as int)
            }),
    {
        if self.remainder >= 0 {
            self.remainder
        } else if self.modulo > 0 {
            self.remainder + self.modulo
        } else {
            self.remainder - self.modulo
        }
    }

    /// Replaces the remainder by `remainder_pos` and returns it.
    pub fn remainder_pos_into(&mut self) -> (r: i64)
        requires
            old(self).wf(),
        ensures
            r == final(self).remainder,
            *final(self) == (ModInt { remainder: r, ..*old(self) }),
            r == (if old(self).remainder >= 0 {
                old(self).remainder as int
            } else {
                old(self).remainder + abs(old(self).modulo as int)
            }),
            final(self).wf(),
    {
        self.remainder_pos_inplace();
        self.remainder
    }

    /// Replaces the remainder by `remainder_pos`.
    pub fn remainder_pos_inplace(&mut self)
        requires
            old(self).wf(),
        ensures
            final(self).modulo == old(self).modulo,
            final(self).remainder == (if old(self).remainder >= 0 {
                old(self).remainder as int
            } else {
                old(self).remainder + abs(old(self).modulo as int)
            }),
            final(self).wf(),
    {
        self.remainder = self.remainder_pos();
    }

    /// The representative in `(-|modulo|, 0]`: the remainder itself when it is
    /// not positive, else the remainder minus `|modulo|`.
    pub fn remainder_neg(&self) -> (r: i64)
        requires
            self.wf(),
        ensures
            r == (if self.remainder <= 0 {
                self.remainder as int
            } else {
                self.remainder - abs(self.modulo as int)
            }),
    {
        if self.remainder <= 0 {
            self.remainder
        } else if self.modulo > 0 {
            self.remainder - self.modulo
        } else {
            self.remainder + self.modulo
        }
    }

    /// Replaces the remainder by `remainder_neg` and returns it.
    pub fn remainder_neg_into(&mut self) -> (r: i64)
        requires
            old(self).wf(),
        ensures
            r == final(self).remainder,
            *final(self) == (ModInt { remainder: r, ..*old(self) }),
            r == (if old(self).remainder <= 0 {
                old(self).remainder as int
            } else {
                old(self).remainder - abs(old(self).modulo as int)
            }),
            final(self).wf(),
    {
        self.remainder_neg_inplace();
        self.remainder
    }

    /// Replaces the remainder by `remainder_neg`.
    pub fn remainder_neg_inplace(&mut self)
        requires
            old(self).wf(),
        ensures
            final(self).modulo == old(self).modulo,
            final(self).remainder == (if old(self).remainder <= 0 {
                old(self).remainder as int
            } else {
                old(self).remainder - abs(old(self).modulo as int)
            }),
            final(self).wf(),
    {
        self.remainder = self.remainder_neg();
    }
}

/// Adding `b` and then subtracting it lands in the residue class of `a`; when the
/// sum does not wrap around the modulus, it gives back `a` itself.
pub proof fn lemma_add_sub_round_trip(a: ModInt, b: ModInt)
    requires
        a.wf(),
        b.wf(),
        a.modulo == b.modulo,
    ensures
        congruent(
            trem(trem(a.remainder + b.remainder, a.modulo as int) - b.remainder, a.modulo as int),
            a.remainder as int,
            a.modulo as int,
        ),
        abs(a.remainder + b.remainder) < abs(a.modulo as int) ==> trem(
            trem(a.remainder + b.remainder, a.modulo as int) - b.remainder,
            a.modulo as int,
        ) == a.remainder,
{
    let m = a.modulo as int;
    let s = trem(a.remainder + b.remainder, m);
    let d = trem(s - b.remainder, m);
    lemma_trem_basic(a.remainder + b.remainder, m);
    lemma_trem_basic(s - b.remainder, m);
    lemma_congruent_symm(a.remainder + b.remainder, s, m);
    assert(s - b.remainder - a.remainder == s - (a.remainder + b.remainder));
    lemma_congruent_symm(s - b.remainder, d, m);
    lemma_congruent_trans(d, s - b.remainder, a.remainder as int, m);
    if abs(a.remainder + b.remainder) < abs(m) {
        lemma_trem_small(a.remainder + b.remainder, m);
        lemma_trem_small(a.remainder as int, m);
    }
}

/// Multiplying by an invertible `b` and then dividing by it lands in the residue
/// class of `a`; with remainders that are not negative it gives back `a` itself.
pub proof fn lemma_mul_div_round_trip(a: ModInt, b: ModInt)
    requires
        a.wf(),
        b.wf(),
        a.modulo == b.modulo,
        spec_gcd(b.remainder as int, b.modulo as int) == 1,
    ensures
        congruent(
            trem(
                trem(a.remainder * b.remainder, a.modulo as int) * inverse(
                    b.remainder as int,
                    b.modulo as int,
                ),
                a.modulo as int,
            ),
            a.remainder as int,
            a.modulo as int,
        ),
        a.remainder >= 0 && b.remainder >= 0 ==> trem(
            trem(a.remainder * b.remainder, a.modulo as int) * inverse(
                b.remainder as int,
                b.modulo as int,
            ),
            a.modulo as int,
        ) == a.remainder,
{
    let m = a.modulo as int;
    let ar = a.remainder as int;
    let br = b.remainder as int;
    let x = inverse(br, m);
    let p = trem(ar * br, m);
    let q = trem(p * x, m);
    lemma_inverse_exists(br, m);
    lemma_trem_basic(ar * br, m);
    lemma_trem_basic(p * x, m);
    lemma_multiple(x - x, m, 0);
    lemma_multiple(ar - ar, m, 0);
    lemma_congruent_symm(ar * br, p, m);
    lemma_congruent_mul(p, x, ar * br, x, m);
    lemma_congruent_mul(ar, br * x, ar, 1, m);
    assert(ar * br * x == ar * (br * x)) by (nonlinear_arith);
    lemma_congruent_trans(p * x, ar * br * x, ar, m);
    lemma_congruent_symm(p * x, q, m);
    lemma_congruent_trans(q, p * x, ar, m);
    if ar >= 0 && br >= 0 {
        if ar == 0 {
            lemma_trem_small(0, m);
            assert(ar * br == 0) by (nonlinear_arith)
                requires
                    ar == 0,
            ;
            assert(p * x == 0) by (nonlinear_arith)
                requires
                    p == 0,
            ;
        } else {
            assert(ar * br >= 0) by (nonlinear_arith)
                requires
                    ar >= 0,
                    br >= 0,
            ;
            assert(p * x >= 0) by (nonlinear_arith)
                requires
                    p >= 0,
                    x >= 0,
            ;
            lemma_congruent_symm(q, ar, m);
            lemma_trem_unique(ar, q, m);
            lemma_trem_small(ar, m);
        }
    }
}

/// Any value to the power zero is `1` reduced by the modulus.
pub proof fn lemma_power_zero(r: int, m: int)
    ensures
        trem(pow(r, 0), m) == trem(1, m),
{
    lemma_pow0(r);
}

/// Each power is the previous one times the value, reduced by the modulus.
pub proof fn lemma_power_step(a: ModInt, n: nat)
    requires
        a.wf(),
        n >= 1,
    ensures
        trem(pow(a.remainder as int, n), a.modulo as int) == trem(
            trem(pow(a.remainder as int, (n - 1) as nat), a.modulo as int) * a.remainder,
            a.modulo as int,
        ),
{
    let m = a.modulo as int;
    let r = a.remainder as int;
    lemma_pow_adds(r, (n - 1) as nat, 1);
    lemma_pow1(r);
    lemma_trem_mul(pow(r, (n - 1) as nat), r, m);
    lemma_trem_small(r, m);
}

} // verus!
