//! Greatest common divisors and modular inverses.
use crate::arith::{
    abs, congruent, lemma_congruent_witness, lemma_mod_abs, lemma_multiple, lemma_trem_basic,
    lemma_trem_euclid, lemma_trem_small, rem_i128, rem_i64, trem,
};
use crate::convert::{narrow, widen};
use crate::error::ModopError;
use vstd::arithmetic::div_mod::{lemma_fundamental_div_mod, lemma_fundamental_div_mod_converse};
use vstd::prelude::*;

verus! {

/// Euclid's algorithm over truncating remainders: `gcd(a, 0) == a`, and otherwise
/// `gcd(a, b) == gcd(b, a % b)`. The sign of the result follows the remainders.
pub open spec fn spec_gcd(a: int, b: int) -> int
    decreases abs(b),
    via spec_gcd_decreases
{
    if b == 0 {
        a
    } else {
        spec_gcd(b, trem(a, b))
    }
}

#[via_fn]
proof fn spec_gcd_decreases(a: int, b: int) {
    if b != 0 {
        lemma_trem_basic(a, b);
    }
}

/// The inputs on which no step of Euclid's algorithm overflows `i64`
/// (`i64::MIN % -1` does).
pub open spec fn gcd_in_range(a: int, b: int) -> bool {
    !(a == i64::MIN && b == -1) && !(a == -1 && b == i64::MIN)
}

/// `x` is the inverse of `a` modulo `m`, taken in `[0, |m|)`.
pub open spec fn is_inverse(a: int, m: int, x: int) -> bool {
    0 <= x < abs(m) && congruent(a * x, 1, m)
}

/// The inverse of `a` modulo `m`, where one exists.
pub open spec fn inverse(a: int, m: int) -> int {
    choose|x: int| is_inverse(a, m, x)
}

/// The truncating quotient, as computed by `a / b` on machine integers.
pub open spec fn tdiv(a: int, b: int) -> int {
    if a >= 0 {
        a / b
    } else {
        -((-a) / b)
    }
}

proof fn lemma_tdiv(a: int, b: int)
    requires
        b != 0,
    ensures
        a == b * tdiv(a, b) + trem(a, b),
{
    lemma_trem_euclid(a, b);
    if a >= 0 {
        lemma_fundamental_div_mod(a, b);
    } else {
        lemma_fundamental_div_mod(-a, b);
        assert(a == b * (-((-a) / b)) - (-a) % b) by (nonlinear_arith)
            requires
                -a == b * ((-a) / b) + (-a) % b,
        ;
    }
}

proof fn lemma_tdiv_bound(a: int, b: int)
    requires
        b != 0,
    ensures
        abs(tdiv(a, b)) <= abs(a),
        abs(b) * abs(tdiv(a, b)) <= abs(a),
{
    if a >= 0 {
        lemma_fundamental_div_mod(a, b);
        lemma_mod_abs(a, b);
        assert(abs(a / b) <= a && abs(b) * abs(a / b) <= a) by (nonlinear_arith)
            requires
                a >= 0,
                a == b * (a / b) + a % b,
                0 <= a % b < abs(b),
                b != 0,
        ;
    } else {
        lemma_fundamental_div_mod(-a, b);
        lemma_mod_abs(-a, b);
        assert(abs((-a) / b) <= -a && abs(b) * abs((-a) / b) <= -a) by (nonlinear_arith)
            requires
                -a > 0,
                -a == b * ((-a) / b) + (-a) % b,
                0 <= (-a) % b < abs(b),
                b != 0,
        ;
    }
}

proof fn lemma_gcd_step_in_range(x: int, y: int)
    requires
        y != 0,
        gcd_in_range(x, y),
        i64::MIN <= x <= i64::MAX,
        i64::MIN <= y <= i64::MAX,
    ensures
        gcd_in_range(y, trem(x, y)),
{
    lemma_trem_basic(x, y);
    if y == i64::MIN && x < 0 && x != -1 {
        lemma_mod_abs(-x, y);
        if x == i64::MIN {
            lemma_trem_small(0, y);
            lemma_multiple(-x, y, 1);
        } else {
            lemma_trem_small(x, y);
        }
    }
}

/// The inverse modulo `m` is unique in `[0, |m|)`.
pub proof fn lemma_inverse_unique(a: int, m: int, x: int, y: int)
    requires
        m != 0,
        is_inverse(a, m, x),
        is_inverse(a, m, y),
    ensures
        x == y,
{
    let mm = abs(m);
    let k1 = lemma_congruent_witness(a * x, 1, m);
    let k2 = lemma_congruent_witness(a * y, 1, m);
    let k = y * k1 - x * k2;
    assert(x - y == mm * k) by (nonlinear_arith)
        requires
            a * x - 1 == mm * k1,
            a * y - 1 == mm * k2,
            k == y * k1 - x * k2,
    ;
    assert(k == 0) by (nonlinear_arith)
        requires
            x - y == mm * k,
            0 <= x < mm,
            0 <= y < mm,
    ;
}

/// Any value that is an inverse is the one that `inverse` names.
pub proof fn lemma_inverse_is(a: int, m: int, x: int)
    requires
        m != 0,
        is_inverse(a, m, x),
    ensures
        inverse(a, m) == x,
        is_inverse(a, m, inverse(a, m)),
{
    lemma_inverse_unique(a, m, inverse(a, m), x);
}

/// The greatest common divisor by Euclid's algorithm; `gcd(a, 0) == a`.
pub fn gcd(a: i64, b: i64) -> (r: i64)
    requires
        gcd_in_range(a as int, b as int),
    ensures
        r == spec_gcd(a as int, b as int),
{
    let mut x: i64 = a;
    let mut y: i64 = b;
    while y != 0
        invariant
            gcd_in_range(x as int, y as int),
            spec_gcd(x as int, y as int) == spec_gcd(a as int, b as int),
        decreases abs(y as int),
    {
        proof {
            lemma_trem_basic(x as int, y as int);
            lemma_gcd_step_in_range(x as int, y as int);
        }
        let r = rem_i64(x, y);
        x = y;
        y = r;
    }
    x
}

/// `|x|`, but at least one.
pub open spec fn size_or_one(x: int) -> int {
    if abs(x) < 1 {
        1
    } else {
        abs(x)
    }
}

/// The extended Euclidean recurrence: `(a, (1, 0))` when `b == 0`; otherwise, from
/// `(d, (x, y))` for `(b, a % b)`, the triple `(d, (y, x - (a / b) * y))`.
pub open spec fn spec_extended_gcd(a: int, b: int) -> (int, (int, int))
    decreases abs(b),
    via spec_extended_gcd_decreases
{
    if b == 0 {
        (a, (1, 0))
    } else {
        let (d, (x, y)) = spec_extended_gcd(b, trem(a, b));
        (d, (y, x - tdiv(a, b) * y))
    }
}

#[via_fn]
proof fn spec_extended_gcd_decreases(a: int, b: int) {
    if b != 0 {
        lemma_trem_basic(a, b);
    }
}

/// `x` lies in the range of `i64`.
pub open spec fn fits_i64(x: int) -> bool {
    i64::MIN <= x <= i64::MAX
}

/// Every remainder, quotient, product and difference that the recurrence computes
/// on `i64` values stays in the range of `i64`.
pub open spec fn extended_gcd_in_range(a: int, b: int) -> bool
    decreases abs(b),
    via extended_gcd_in_range_decreases
{
    if b == 0 {
        true
    } else {
        let (d, (x, y)) = spec_extended_gcd(b, trem(a, b));
        &&& !(a == i64::MIN && b == -1)
        &&& extended_gcd_in_range(b, trem(a, b))
        &&& fits_i64(tdiv(a, b) * y)
        &&& fits_i64(x - tdiv(a, b) * y)
    }
}

#[via_fn]
proof fn extended_gcd_in_range_decreases(a: int, b: int) {
    if b != 0 {
        lemma_trem_basic(a, b);
    }
}

/// The recurrence yields the gcd and Bezout coefficients no larger than the inputs;
/// on `i64` values other than `i64::MIN` it never leaves the range of `i64`.
pub proof fn lemma_extended_gcd(a: int, b: int)
    ensures
        spec_extended_gcd(a, b).0 == spec_gcd(a, b),
        a * spec_extended_gcd(a, b).1.0 + b * spec_extended_gcd(a, b).1.1 == spec_gcd(a, b),
        b == 0 ==> spec_extended_gcd(a, b).1 == (1int, 0int),
        abs(spec_extended_gcd(a, b).1.0) <= size_or_one(b),
        abs(spec_extended_gcd(a, b).1.1) <= size_or_one(a),
        fits_i64(a) && fits_i64(b) && a != i64::MIN && b != i64::MIN ==> extended_gcd_in_range(
            a,
            b,
        ),
    decreases abs(b),
{
    if b != 0 {
        lemma_trem_basic(a, b);
        lemma_tdiv(a, b);
        lemma_tdiv_bound(a, b);
        let r = trem(a, b);
        let t = tdiv(a, b);
        lemma_extended_gcd(b, r);
        let (d, (x, y)) = spec_extended_gcd(b, r);
        assert(abs(r) + abs(b) * abs(t) == abs(a)) by (nonlinear_arith)
            requires
                a == b * t + r,
                a >= 0 ==> r >= 0,
                a <= 0 ==> r <= 0,
                abs(b) * abs(t) <= abs(a),
                abs(r) < abs(b),
        ;
        assert(abs(t * y) <= abs(b) * abs(t)) by (nonlinear_arith)
            requires
                abs(y) <= abs(b),
        ;
        assert(abs(x - t * y) <= size_or_one(a)) by (nonlinear_arith)
            requires
                abs(t * y) <= abs(b) * abs(t),
                abs(r) + abs(b) * abs(t) == abs(a),
                r != 0 ==> abs(x) <= abs(r),
                r == 0 ==> x == 1 && y == 0,
        ;
        assert(a * y + b * (x - t * y) == b * x + r * y) by (nonlinear_arith)
            requires
                a == b * t + r,
        ;
    }
}

/// The extended Euclidean algorithm: `(d, (x, y))` with `d == gcd(a, b)` and
/// `a * x + b * y == d`, computed by the recurrence `spec_extended_gcd`.
pub fn extended_gcd(a: i64, b: i64) -> (r: (i64, (i64, i64)))
    requires
        extended_gcd_in_range(a as int, b as int),
    ensures
        (r.0 as int, (r.1.0 as int, r.1.1 as int)) == spec_extended_gcd(a as int, b as int),
        r.0 == spec_gcd(a as int, b as int),
        a * r.1.0 + b * r.1.1 == r.0,
    decreases abs(b as int),
{
    proof {
        lemma_extended_gcd(a as int, b as int);
    }
    if b == 0 {
        (a, (1, 0))
    } else {
        proof {
            lemma_trem_basic(a as int, b as int);
            lemma_tdiv_bound(a as int, b as int);
            let qq = tdiv(a as int, b as int);
            if abs(b as int) >= 2 {
                assert(2 * abs(qq) <= abs(a as int)) by (nonlinear_arith)
                    requires
                        abs(b as int) * abs(qq) <= abs(a as int),
                        abs(b as int) >= 2,
                ;
            } else {
                lemma_tdiv(a as int, b as int);
            }
        }
        let r = rem_i64(a, b);
        let (d, (x, y)) = extended_gcd(b, r);
        let t = a / b;
        (d, (y, x - t * y))
    }
}

/// The inverse of `a` modulo `m`, in `[0, |m|)`, by the extended Euclidean
/// algorithm with `i128` coefficients reduced modulo `m` at every step.
/// It exists exactly when `gcd(a, m) == 1`.
pub fn modinv(a: i64, m: i64) -> (r: Result<i64, ModopError>)
    requires
        m != 0,
        gcd_in_range(a as int, m as int),
    ensures
        spec_gcd(a as int, m as int) != 1 ==> r == Err::<i64, ModopError>(
            ModopError::NotRelativelyPrime { remainder: a, modulo: m },
        ),
        spec_gcd(a as int, m as int) == 1 ==> r == Ok::<i64, ModopError>(
            inverse(a as int, m as int) as i64,
        ) && is_inverse(a as int, m as int, inverse(a as int, m as int)),
{
    if gcd(a, m) != 1 {
        return Err(ModopError::NotRelativelyPrime { remainder: a, modulo: m });
    }
    let m_wide = match widen(m) {
        Some(w) => w,
        None => {
            return Err(ModopError::NotRelativelyPrime { remainder: a, modulo: m });
        },
    };
    let ghost mm = abs(m as int);
    let mut x: i64 = a;
    let mut b: i64 = m;
    let mut u: i128 = 1;
    let mut v: i128 = 0;
    // Coefficients of `m`: x == a * u + |m| * s and b == a * v + |m| * t.
    let ghost mut s: int = 0;
    let ghost mut t: int = if m < 0 { -1 } else { 1 };
    while b != 0
        invariant
            m_wide == m,
            mm == abs(m as int),
            0 < mm <= 0x8000_0000_0000_0000,
            gcd_in_range(x as int, b as int),
            spec_gcd(x as int, b as int) == 1,
            x == a * u + mm * s,
            b == a * v + mm * t,
            abs(u as int) <= mm,
            abs(v as int) <= mm,
        decreases abs(b as int),
    {
        proof {
            lemma_trem_basic(x as int, b as int);
            lemma_gcd_step_in_range(x as int, b as int);
            lemma_tdiv(x as int, b as int);
            lemma_tdiv_bound(x as int, b as int);
        }
        proof {
            let qq = tdiv(x as int, b as int);
            if abs(b as int) >= 2 {
                assert(2 * abs(qq) <= abs(x as int)) by (nonlinear_arith)
                    requires
                        abs(b as int) * abs(qq) <= abs(x as int),
                        abs(b as int) >= 2,
                ;
            } else {
                lemma_trem_basic(x as int, b as int);
            }
        }
        let q = x / b;
        let r = rem_i64(x, b);
        let q_wide = match widen(q) {
            Some(w) => w,
            None => {
                return Err(ModopError::NotRelativelyPrime { remainder: a, modulo: m });
            },
        };
        assert(abs(q_wide * v) <= 0x8000_0000_0000_0000 * 0x8000_0000_0000_0000) by (nonlinear_arith)
            requires
                abs(q_wide as int) <= 0x8000_0000_0000_0000,
                abs(v as int) <= 0x8000_0000_0000_0000,
        ;
        let w = u - q_wide * v;
        let v_next = rem_i128(w, m_wide);
        proof {
            lemma_trem_basic(w as int, m as int);
            let k = lemma_congruent_witness(w as int, v_next as int, m as int);
            let t_next = s - t * q + a * k;
            assert(r == a * v_next + mm * t_next) by (nonlinear_arith)
                requires
                    x == a * u + mm * s,
                    b == a * v + mm * t,
                    x == b * q + r,
                    w == u - q * v,
                    w - v_next == mm * k,
                    t_next == s - t * q + a * k,
            ;
            s = t;
            t = t_next;
        }
        x = b;
        b = r;
        u = v;
        v = v_next;
    }
    let ghost s_end = s;
    assert(spec_gcd(x as int, 0) == x);
    let m_abs: i128 = if m_wide < 0 { -m_wide } else { m_wide };
    let mut inv = rem_i128(u, m_wide);
    proof {
        lemma_trem_basic(u as int, m as int);
    }
    if inv < 0 {
        inv = inv + m_abs;
    }
    proof {
        let k0 = lemma_congruent_witness(u as int, trem(u as int, m as int), m as int);
        let k1 = if trem(u as int, m as int) < 0 { k0 - 1 } else { k0 };
        assert(u - inv == mm * k1) by (nonlinear_arith)
            requires
                u - trem(u as int, m as int) == mm * k0,
                trem(u as int, m as int) < 0 ==> inv == trem(u as int, m as int) + mm,
                trem(u as int, m as int) >= 0 ==> inv == trem(u as int, m as int),
                k1 == if trem(u as int, m as int) < 0 { k0 - 1 } else { k0 },
        ;
        assert(a * inv - 1 == mm * (-(s_end + a * k1))) by (nonlinear_arith)
            requires
                1 == a * u + mm * s_end,
                u - inv == mm * k1,
        ;
        lemma_multiple(a * inv - 1, m as int, -(s_end + a * k1));
        lemma_inverse_is(a as int, m as int, inv as int);
    }
    match narrow(inv) {
        Some(r) => Ok(r),
        None => Err(ModopError::NotRelativelyPrime { remainder: a, modulo: m }),
    }
}

/// Bezout coefficients: `a * u + b * v == gcd(a, b)`.
pub proof fn lemma_bezout(a: int, b: int) -> (uv: (int, int))
    ensures
        a * uv.0 + b * uv.1 == spec_gcd(a, b),
    decreases abs(b),
{
    if b == 0 {
        (1, 0)
    } else {
        lemma_trem_basic(a, b);
        lemma_tdiv(a, b);
        let q = tdiv(a, b);
        let r = trem(a, b);
        let (u1, v1) = lemma_bezout(b, r);
        assert(a * v1 + b * (u1 - q * v1) == b * u1 + r * v1) by (nonlinear_arith)
            requires
                a == b * q + r,
        ;
        (v1, u1 - q * v1)
    }
}

/// When `gcd(a, m) == 1`, `a` has an inverse modulo `m`.
pub proof fn lemma_inverse_exists(a: int, m: int)
    requires
        m != 0,
        spec_gcd(a, m) == 1,
    ensures
        is_inverse(a, m, inverse(a, m)),
{
    let mm = abs(m);
    let (u, v) = lemma_bezout(a, m);
    lemma_trem_basic(u, m);
    let k0 = lemma_congruent_witness(u, trem(u, m), m);
    let x = if trem(u, m) < 0 { trem(u, m) + mm } else { trem(u, m) };
    let k1 = if trem(u, m) < 0 { k0 - 1 } else { k0 };
    let sv = if m < 0 { -v } else { v };
    assert(u - x == mm * k1) by (nonlinear_arith)
        requires
            u - trem(u, m) == mm * k0,
            trem(u, m) < 0 ==> x == trem(u, m) + mm,
            trem(u, m) >= 0 ==> x == trem(u, m),
            k1 == if trem(u, m) < 0 { k0 - 1 } else { k0 },
    ;
    assert(a * x - 1 == mm * (-(sv + a * k1))) by (nonlinear_arith)
        requires
            a * u + m * v == 1,
            u - x == mm * k1,
            mm == abs(m),
            sv == if m < 0 { -v } else { v },
    ;
    lemma_multiple(a * x - 1, m, -(sv + a * k1));
    lemma_inverse_is(a, m, x);
}

/// `gcd(a, 0) == a`.
pub proof fn lemma_gcd_zero(a: int)
    ensures
        spec_gcd(a, 0) == a,
{
}

/// `gcd(a, b) == gcd(b, a)`. The sign convention of the remainders breaks the
/// symmetry only for `b == -a` with `a != 0`, which is left out.
pub proof fn lemma_gcd_comm(a: int, b: int)
    requires
        a != -b || a == 0,
    ensures
        spec_gcd(a, b) == spec_gcd(b, a),
{
    if a == 0 && b == 0 {
    } else if b == 0 {
        lemma_trem_small(0, a);
        assert(spec_gcd(0, a) == spec_gcd(a, trem(0, a)));
    } else if a == 0 {
        lemma_trem_small(0, b);
        assert(spec_gcd(0, b) == spec_gcd(b, trem(0, b)));
    } else if abs(a) < abs(b) {
        lemma_trem_small(a, b);
    } else if abs(b) < abs(a) {
        lemma_trem_small(b, a);
    }
}

/// For `gcd(a, m) == 1`, `a` times its inverse leaves the remainder `1` (for `|m| > 1`).
pub proof fn lemma_inverse_product(a: int, m: int)
    requires
        abs(m) > 1,
        spec_gcd(a, m) == 1,
    ensures
        (a * inverse(a, m)) % m == 1,
{
    lemma_inverse_exists(a, m);
    let x = inverse(a, m);
    let k = lemma_congruent_witness(a * x, 1, m);
    assert(a * x == k * abs(m) + 1) by (nonlinear_arith)
        requires
            a * x - 1 == abs(m) * k,
    ;
    lemma_fundamental_div_mod_converse(a * x, abs(m), k, 1);
    lemma_mod_abs(a * x, m);
}

} // verus!
