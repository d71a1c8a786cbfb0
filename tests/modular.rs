use modop::error::ModopError;
use modop::factorial::ModGen;
use modop::gcd::{extended_gcd, gcd, modinv};
use modop::modulo::ModInt;

#[test]
fn new_keeps_native_remainder() {
    assert_eq!(ModInt::new(7, 5).remainder, 2);
    assert_eq!(ModInt::new(-7, 5).remainder, -2);
    assert_eq!(ModInt::new(7, -5).remainder, 2);
    assert_eq!(ModInt::new(-7, -5).remainder, -2);
    assert_eq!(ModInt::new(10, 5).remainder, 0);
    assert_eq!(ModInt::new(i64::MIN, 7).remainder, i64::MIN % 7);
    assert_eq!(ModInt::new(3, 5).modulo, 5);
}

#[test]
fn divide_then_normalise() {
    let a = ModInt::new(3, 5);
    let mut b = a.div(ModInt::new(4, 5));
    assert_eq!(b.remainder, 2);
    b.remainder_neg_inplace();
    assert_eq!(b.remainder, -3);
    b.remainder_pos_inplace();
    assert_eq!(b.remainder, 2);
}

#[test]
fn normalise_into_and_plain() {
    let mut a = ModInt::new(-3, 7);
    assert_eq!(a.remainder_pos(), 4);
    assert_eq!(a.remainder_neg(), -3);
    assert_eq!(a.remainder_pos_into(), 4);
    assert_eq!(a.remainder, 4);
    assert_eq!(a.remainder_neg_into(), -3);
    assert_eq!(a.remainder, -3);
    let b = ModInt::new(3, -7);
    assert_eq!(b.remainder_neg(), -4);
}

#[test]
fn divide_by_multiple_of_modulus_fails() {
    let r = ModInt::new(3, 5).try_div(ModInt::new(5, 5));
    assert!(matches!(r, Err(ModopError::NotRelativelyPrime { remainder: 0, modulo: 5 })));
}

#[test]
fn divide_by_zero_class_modulo_ten_fails() {
    let r = ModInt::new(3, 10).try_div(ModInt::new(10, 10));
    assert!(matches!(r, Err(ModopError::NotRelativelyPrime { remainder: 0, modulo: 10 })));
    let r = ModInt::new(3, 10).try_div(ModInt::new(4, 10));
    assert!(matches!(r, Err(ModopError::NotRelativelyPrime { remainder: 4, modulo: 10 })));
}

#[test]
fn divide_across_moduli_fails() {
    let r = ModInt::new(3, 5).try_div(ModInt::new(3, 10));
    assert!(matches!(r, Err(ModopError::DifferentModulos { op: "divide" })));
}

#[test]
fn try_div_succeeds_when_invertible() {
    let r = ModInt::new(3, 5).try_div(ModInt::new(4, 5)).unwrap();
    assert_eq!(r.remainder, 2);
    assert_eq!(r.modulo, 5);
}

#[test]
fn power_of_three_modulo_prime() {
    let mut a = ModInt::new(3, 1_000_000_007);
    a.pow_inplace(45);
    assert_eq!(a.remainder, 644897553);
    assert_eq!(a.modulo, 1_000_000_007);
    let mut b = ModInt::new(3, 1_000_000_007);
    assert_eq!(b.pow(44), 214965851);
    assert_eq!(b.remainder, 3);
    assert_eq!(b.pow_into(45), 644897553);
    assert_eq!(b.remainder, 644897553);
}

#[test]
fn power_zero_and_step() {
    let mut a = ModInt::new(-4, 7);
    assert_eq!(a.pow(0), 1);
    let mut one = ModInt::new(5, 1);
    assert_eq!(one.pow(0), 0);
    for n in 1..20usize {
        let prev = a.pow(n - 1);
        assert_eq!(a.pow(n), (prev * a.remainder) % 7);
    }
    assert_eq!(a.pow(3), -1);
}

#[test]
fn add_sub_mul() {
    let a = ModInt::new(3, 5);
    let b = ModInt::new(4, 5);
    assert_eq!(a.add(b).remainder, 2);
    assert_eq!(a.mul(b).remainder, 2);
    assert_eq!(a.sub(b).remainder, -1);
    let back = a.add(b).sub(b);
    assert_eq!(back.remainder, -2);
    assert_eq!((back.remainder - a.remainder).rem_euclid(5), 0);
    let small = ModInt::new(1, 5).add(ModInt::new(2, 5)).sub(ModInt::new(2, 5));
    assert_eq!(small.remainder, 1);
    assert_eq!(a.mul(b).div(b).remainder, 3);
}

#[test]
fn assign_operators() {
    let mut a = ModInt::new(3, 5);
    a.add_assign(ModInt::new(4, 5));
    assert_eq!(a.remainder, 2);
    a.mul_assign(ModInt::new(4, 5));
    assert_eq!(a.remainder, 3);
    a.sub_assign(ModInt::new(4, 5));
    assert_eq!(a.remainder, -1);
    a.div_assign(ModInt::new(2, 5));
    assert_eq!(a.remainder, -3);
}

#[test]
fn gcd_values() {
    assert_eq!(gcd(12, 18), 6);
    assert_eq!(gcd(18, 12), 6);
    assert_eq!(gcd(7, 0), 7);
    assert_eq!(gcd(0, 7), 7);
    assert_eq!(gcd(-4, 6), 2);
    assert_eq!(gcd(6, -4), 2);
    assert_eq!(gcd(3, -3), -3);
    assert_eq!(gcd(-3, 3), 3);
}

#[test]
fn modinv_values() {
    assert_eq!(modinv(3, 7).unwrap(), 5);
    assert_eq!(modinv(4, 5).unwrap(), 4);
    assert_eq!(modinv(-3, 7).unwrap(), 2);
    assert_eq!(gcd(3, -7), -1);
    assert!(matches!(modinv(3, -7), Err(ModopError::NotRelativelyPrime { remainder: 3, modulo: -7 })));
    assert_eq!(modinv(3, -8).unwrap(), 3);
    assert_eq!(modinv(1, 1).unwrap(), 0);
    assert!(matches!(modinv(2, 4), Err(ModopError::NotRelativelyPrime { remainder: 2, modulo: 4 })));
    assert!(matches!(modinv(0, 5), Err(ModopError::NotRelativelyPrime { remainder: 0, modulo: 5 })));
    let big = 1_000_000_007i64;
    let inv = modinv(123_456_789, big).unwrap();
    assert_eq!(((123_456_789i128 * inv as i128) % big as i128), 1);
    let near = i64::MAX;
    let inv = modinv(2, near).unwrap();
    assert_eq!((2i128 * inv as i128) % near as i128, 1);
}

#[test]
fn inverse_times_value_is_one() {
    for m in 2..40i64 {
        for a in 0..m {
            match modinv(a, m) {
                Ok(x) => {
                    assert_eq!(gcd(a, m), 1);
                    assert_eq!((a * x) % m, 1);
                }
                Err(_) => assert_ne!(gcd(a, m), 1),
            }
        }
    }
}

#[test]
fn combination_five_two_mod_thirteen() {
    let mut g = ModGen::new(13);
    let c = g.combination(5, 2).unwrap();
    assert_eq!(c.remainder, 10);
    assert_eq!(c.modulo, 13);
    assert_eq!(g.modulo(), 13);
}

#[test]
fn factorial_and_permutation() {
    let mut g = ModGen::new(13);
    assert_eq!(g.factorial(5).unwrap().remainder, 3);
    assert_eq!(g.factorial(6).unwrap().remainder, 5);
    assert_eq!(g.factorial(0).unwrap().remainder, 1);
    assert_eq!(g.permutation(5, 2).unwrap().remainder, 8);
    assert_eq!(g.factorials.len(), 7);
}

#[test]
fn combination_symmetric_and_from_permutation() {
    let mut g = ModGen::new(13);
    for n in 0..13usize {
        for r in 0..=n {
            let c = g.combination(n, r).unwrap().remainder;
            assert_eq!(c, g.combination(n, n - r).unwrap().remainder);
            let p = g.permutation(n, r).unwrap().remainder;
            let inv = modinv(g.factorial(n - r).unwrap().remainder, 13).unwrap();
            assert_eq!(c, (p * inv) % 13);
        }
    }
}

#[test]
fn cannot_calculate_without_inverse() {
    let mut g = ModGen::new(4);
    assert!(matches!(
        g.combination(3, 2),
        Err(ModopError::CannotCalculate { object: "combination", modulo: 4 })
    ));
    assert!(matches!(
        g.permutation(3, 2),
        Err(ModopError::CannotCalculate { object: "permutation", modulo: 4 })
    ));
    assert_eq!(g.permutation(3, 1).unwrap().remainder, 2);
}

#[test]
fn expand_is_idempotent() {
    let mut g = ModGen::new(1_000_000_007);
    g.expand(10);
    let table = g.factorials.clone();
    assert_eq!(table.len(), 11);
    assert_eq!(table[10], 3628800);
    g.expand(5);
    assert_eq!(g.factorials, table);
    g.expand(10);
    assert_eq!(g.factorials, table);
}

#[test]
fn extended_gcd_values() {
    assert_eq!(extended_gcd(240, 46), (2, (-9, 47)));
    assert_eq!(extended_gcd(46, 240), (2, (47, -9)));
    assert_eq!(extended_gcd(-240, 46), (2, (9, 47)));
    assert_eq!(extended_gcd(17, 5), (1, (-2, 7)));
    assert_eq!(extended_gcd(7, 0), (7, (1, 0)));
    assert_eq!(extended_gcd(0, 7), (7, (0, 1)));
    assert_eq!(extended_gcd(i64::MIN, 2), (2, (0, 1)));
    assert_eq!(extended_gcd(i64::MIN, i64::MIN), (i64::MIN, (0, 1)));
    let (d, (x, y)) = extended_gcd(i64::MAX, i64::MAX - 1);
    assert_eq!(d, 1);
    assert_eq!(i64::MAX as i128 * x as i128 + (i64::MAX - 1) as i128 * y as i128, 1);
}

#[test]
fn power_with_largest_modulus_whose_products_fit() {
    let m = 3_037_000_500i64;
    let mut a = ModInt::new(m - 1, m);
    assert_eq!(a.pow(2), 1);
    assert_eq!(a.pow(3), m - 1);
    let mut b = ModInt::new(2, m);
    assert_eq!(b.pow(40), ((1i128 << 40) % m as i128) as i64);
}

#[test]
fn generator_tables_after_new_and_expand() {
    let mut g = ModGen::new(7);
    assert_eq!(g.factorials, vec![1, 1]);
    assert_eq!(g.inv_factorials, vec![Some(1), Some(1)]);
    g.expand(7);
    assert_eq!(g.factorials, vec![1, 1, 2, 6, 3, 1, 6, 0]);
    assert_eq!(g.inv_factorials, vec![Some(1), Some(1), Some(4), Some(6), Some(5), Some(1), Some(6), None]);
    let inv = g.inv_factorials.clone();
    g.expand(3);
    assert_eq!(g.inv_factorials, inv);
    assert_eq!(g.modulo(), 7);
}
