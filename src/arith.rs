//! Mathematical model of machine remainders: Rust's `%` on signed integers
//! truncates toward zero, so the remainder takes the sign of the dividend.
use vstd::arithmetic::div_mod::{
    lemma_fundamental_div_mod, lemma_fundamental_div_mod_converse, lemma_mod_multiples_basic,
};
use vstd::prelude::*;

verus! {

pub open spec fn abs(x: int) -> int {
    if x < 0 {
        -x
    } else {
        x
    }
}

/// The truncating remainder of `a` by `m`, as computed by `a % m` on machine integers.
pub open spec fn trem(a: int, m: int) -> int {
    if a >= 0 {
        a % abs(m)
    } else {
        -((-a) % abs(m))
    }
}

/// `x` and `y` lie in the same residue class modulo `m`.
pub open spec fn congruent(x: int, y: int, m: int) -> bool {
    (x - y) % abs(m) == 0
}

/// The machine operation `a % m` on `i64` never overflows.
pub open spec fn rem_in_range(a: int, m: int) -> bool {
    m != 0 && !(a == i64::MIN && m == -1)
}

/// Euclidean remainder by a negative divisor equals the remainder by its absolute value.
pub proof fn lemma_mod_abs(x: int, m: int)
    requires
        m != 0,
    ensures
        x % m == x % abs(m),
        0 <= x % abs(m) < abs(m),
{
    lemma_fundamental_div_mod(x, m);
    lemma_fundamental_div_mod(x, abs(m));
    if m < 0 {
        assert(x == (-(x / m)) * abs(m) + x % m) by (nonlinear_arith)
            requires
                x == m * (x / m) + x % m,
                m < 0,
        ;
        lemma_fundamental_div_mod_converse(x, abs(m), -(x / m), x % m);
    }
}

/// `trem` agrees with the way the machine remainder is specified on signed integers.
pub proof fn lemma_trem_euclid(a: int, m: int)
    requires
        m != 0,
    ensures
        trem(a, m) == (if a >= 0 {
            a % m
        } else {
            -((-a) % m)
        }),
{
    if a >= 0 {
        lemma_mod_abs(a, m);
    } else {
        lemma_mod_abs(-a, m);
    }
}

/// `a % m` on `i64`.
pub(crate) fn rem_i64(a: i64, m: i64) -> (r: i64)
    requires
        rem_in_range(a as int, m as int),
    ensures
        r == trem(a as int, m as int),
{
    proof {
        lemma_trem_euclid(a as int, m as int);
    }
    a % m
}

/// `a % m` on `i128`.
pub(crate) fn rem_i128(a: i128, m: i128) -> (r: i128)
    requires
        m != 0,
        !(a == i128::MIN && m == -1),
    ensures
        r == trem(a as int, m as int),
{
    proof {
        lemma_trem_euclid(a as int, m as int);
    }
    a % m
}

/// `x` is `m` times some integer exactly when its remainder by `m` is zero.
pub proof fn lemma_multiple(x: int, m: int, k: int)
    requires
        m != 0,
        x == abs(m) * k,
    ensures
        x % abs(m) == 0,
{
    lemma_mod_multiples_basic(k, abs(m));
    assert(k * abs(m) == abs(m) * k) by (nonlinear_arith);
}

/// The quotient witnessing a congruence.
pub proof fn lemma_congruent_witness(x: int, y: int, m: int) -> (q: int)
    requires
        m != 0,
        congruent(x, y, m),
    ensures
        x - y == abs(m) * q,
{
    lemma_fundamental_div_mod(x - y, abs(m));
    (x - y) / abs(m)
}

/// Basic facts about `trem`: its size, its sign and its residue class.
pub proof fn lemma_trem_basic(x: int, m: int)
    requires
        m != 0,
    ensures
        abs(trem(x, m)) < abs(m),
        x >= 0 ==> trem(x, m) >= 0,
        x <= 0 ==> trem(x, m) <= 0,
        congruent(x, trem(x, m), m),
{
    let mm = abs(m);
    if x >= 0 {
        lemma_mod_abs(x, m);
        lemma_fundamental_div_mod(x, mm);
        lemma_multiple(x - trem(x, m), m, x / mm);
    } else {
        lemma_mod_abs(-x, m);
        lemma_fundamental_div_mod(-x, mm);
        let q = (-x) / mm;
        assert(x - trem(x, m) == mm * (-q)) by (nonlinear_arith)
            requires
                -x == mm * q + (-x) % mm,
                trem(x, m) == -((-x) % mm),
        ;
        lemma_multiple(x - trem(x, m), m, -q);
    }
}

/// A value of the right sign, smaller than the modulus and congruent to `x` is `trem(x, m)`.
pub proof fn lemma_trem_unique(x: int, r: int, m: int)
    requires
        m != 0,
        abs(r) < abs(m),
        congruent(x, r, m),
        x >= 0 ==> r >= 0,
        x <= 0 ==> r <= 0,
    ensures
        r == trem(x, m),
{
    let mm = abs(m);
    let q = lemma_congruent_witness(x, r, m);
    if x >= 0 {
        assert(x == q * mm + r) by (nonlinear_arith)
            requires
                x - r == mm * q,
        ;
        lemma_fundamental_div_mod_converse(x, mm, q, r);
    } else {
        assert(-x == (-q) * mm + (-r)) by (nonlinear_arith)
            requires
                x - r == mm * q,
        ;
        lemma_fundamental_div_mod_converse(-x, mm, -q, -r);
    }
}

/// A value already smaller than the modulus is its own remainder.
pub proof fn lemma_trem_small(x: int, m: int)
    requires
        m != 0,
        abs(x) < abs(m),
    ensures
        trem(x, m) == x,
{
    lemma_multiple(x - x, m, 0);
    lemma_trem_unique(x, x, m);
}

/// Congruence is preserved by adding multiples and by transitivity.
pub proof fn lemma_congruent_trans(x: int, y: int, z: int, m: int)
    requires
        m != 0,
        congruent(x, y, m),
        congruent(y, z, m),
    ensures
        congruent(x, z, m),
{
    let q1 = lemma_congruent_witness(x, y, m);
    let q2 = lemma_congruent_witness(y, z, m);
    assert(x - z == abs(m) * (q1 + q2)) by (nonlinear_arith)
        requires
            x - y == abs(m) * q1,
            y - z == abs(m) * q2,
    ;
    lemma_multiple(x - z, m, q1 + q2);
}

/// Congruence is symmetric.
pub proof fn lemma_congruent_symm(x: int, y: int, m: int)
    requires
        m != 0,
        congruent(x, y, m),
    ensures
        congruent(y, x, m),
{
    let q = lemma_congruent_witness(x, y, m);
    assert(y - x == abs(m) * (-q)) by (nonlinear_arith)
        requires
            x - y == abs(m) * q,
    ;
    lemma_multiple(y - x, m, -q);
}

/// Congruence is preserved by multiplication.
pub proof fn lemma_congruent_mul(x: int, y: int, xr: int, yr: int, m: int)
    requires
        m != 0,
        congruent(x, xr, m),
        congruent(y, yr, m),
    ensures
        congruent(x * y, xr * yr, m),
{
    let mm = abs(m);
    let q1 = lemma_congruent_witness(x, xr, m);
    let q2 = lemma_congruent_witness(y, yr, m);
    let k = xr * q2 + yr * q1 + mm * q1 * q2;
    assert(x * y - xr * yr == mm * k) by (nonlinear_arith)
        requires
            x - xr == mm * q1,
            y - yr == mm * q2,
            k == xr * q2 + yr * q1 + mm * q1 * q2,
    ;
    lemma_multiple(x * y - xr * yr, m, k);
}

/// Reducing the factors of a product first does not change the product's remainder.
pub proof fn lemma_trem_mul(x: int, y: int, m: int)
    requires
        m != 0,
    ensures
        trem(trem(x, m) * trem(y, m), m) == trem(x * y, m),
{
    let xr = trem(x, m);
    let yr = trem(y, m);
    let z = trem(xr * yr, m);
    lemma_trem_basic(x, m);
    lemma_trem_basic(y, m);
    lemma_trem_basic(xr * yr, m);
    lemma_congruent_mul(x, y, xr, yr, m);
    lemma_congruent_trans(x * y, xr * yr, z, m);
    if x * y > 0 {
        assert(xr * yr >= 0) by (nonlinear_arith)
            requires
                x * y > 0,
                x >= 0 ==> xr >= 0,
                x <= 0 ==> xr <= 0,
                y >= 0 ==> yr >= 0,
                y <= 0 ==> yr <= 0,
        ;
    } else if x * y < 0 {
        assert(xr * yr <= 0) by (nonlinear_arith)
            requires
                x * y < 0,
                x >= 0 ==> xr >= 0,
                x <= 0 ==> xr <= 0,
                y >= 0 ==> yr >= 0,
                y <= 0 ==> yr <= 0,
        ;
    } else {
        assert(x == 0 || y == 0) by (nonlinear_arith)
            requires
                x * y == 0,
        ;
        assert(xr * yr == 0) by (nonlinear_arith)
            requires
                x == 0 ==> xr == 0,
                y == 0 ==> yr == 0,
                x == 0 || y == 0,
        ;
    }
    lemma_trem_unique(x * y, z, m);
}

/// Taking the remainder twice is the same as taking it once.
pub proof fn lemma_trem_idem(x: int, m: int)
    requires
        m != 0,
    ensures
        trem(trem(x, m), m) == trem(x, m),
{
    lemma_trem_basic(x, m);
    lemma_trem_small(trem(x, m), m);
}

/// Every product of two values smaller than `m` in magnitude fits in an `i64`.
pub open spec fn products_fit(m: int) -> bool {
    (abs(m) - 1) * (abs(m) - 1) <= i64::MAX
}

/// A product of two values smaller than a modulus with `products_fit` fits in an
/// `i64`, away from `i64::MIN`; such a modulus is not `i64::MIN` itself.
pub proof fn lemma_product_fits(x: int, y: int, m: int)
    requires
        m != 0,
        products_fit(m),
        abs(x) < abs(m),
        abs(y) < abs(m),
    ensures
        abs(x * y) <= (abs(m) - 1) * (abs(m) - 1),
        -i64::MAX <= x * y <= i64::MAX,
        m != i64::MIN,
{
    assert(abs(x * y) <= (abs(m) - 1) * (abs(m) - 1)) by (nonlinear_arith)
        requires
            abs(x) < abs(m),
            abs(y) < abs(m),
    ;
    if m == i64::MIN {
        assert((abs(m) - 1) * (abs(m) - 1) > i64::MAX) by (nonlinear_arith)
            requires
                abs(m) == 0x8000_0000_0000_0000,
        ;
    }
}

} // verus!
