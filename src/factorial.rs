//! Factorials, permutations and combinations modulo a fixed modulus, from tables
//! of factorials and their inverses that grow on demand.
use crate::arith::{
    abs, lemma_product_fits, lemma_trem_basic, lemma_trem_idem, lemma_trem_mul, lemma_trem_small,
    products_fit, trem,
};
use crate::convert::index_to_i64;
use crate::error::ModopError;
use crate::gcd::{inverse, is_inverse, lemma_inverse_exists, modinv, spec_gcd};
use crate::modulo::ModInt;
use vstd::prelude::*;

verus! {

/// `n!`.
pub open spec fn fact(n: nat) -> int
    decreases n,
{
    if n == 0 {
        1
    } else {
        fact((n - 1) as nat) * n
    }
}

/// The factorial table's entry for `i`: `1` for `0!` and `1!`, else `i!` reduced.
pub open spec fn table_entry(i: nat, m: int) -> int {
    if i <= 1 {
        1
    } else {
        trem(fact(i), m)
    }
}

/// The inverse table's entry for a factorial entry `f`: its inverse, if it has one.
pub open spec fn inverse_entry(f: int, m: int) -> Option<i64> {
    if spec_gcd(f, m) == 1 {
        Some(inverse(f, m) as i64)
    } else {
        None
    }
}

/// `n! * (r!)^-1`, reduced.
pub open spec fn permutation_value(n: nat, r: nat, m: int) -> int {
    trem(table_entry(n, m) * inverse(table_entry(r, m), m), m)
}

/// `n! * (r!)^-1 * ((n - r)!)^-1`, reduced after each product.
pub open spec fn combination_value(n: nat, r: nat, m: int) -> int {
    trem(
        trem(table_entry(n, m) * inverse(table_entry(r, m), m), m) * inverse(
            table_entry((n - r) as nat, m),
            m,
        ),
        m,
    )
}

/// `r!` has an inverse modulo `m`.
pub open spec fn invertible_entry(r: nat, m: int) -> bool {
    spec_gcd(table_entry(r, m), m) == 1
}

/// A table entry is smaller than the modulus in magnitude, or it is `1`.
pub proof fn lemma_entry_bound(i: nat, m: int)
    requires
        m != 0,
    ensures
        abs(table_entry(i, m)) < abs(m) || table_entry(i, m) == 1,
{
    if i > 1 {
        lemma_trem_basic(fact(i), m);
    }
}

/// A table entry times an inverse fits in an `i64`.
proof fn lemma_entry_times_inverse_fits(f: int, x: int, m: int)
    requires
        m != 0,
        products_fit(m),
        abs(f) < abs(m) || f == 1,
        0 <= x < abs(m),
    ensures
        -i64::MAX <= f * x <= i64::MAX,
{
    if abs(f) < abs(m) {
        lemma_product_fits(f, x, m);
    } else {
        assert(f * x == x);
    }
}

/// A generator of factorials and their inverses modulo a fixed modulus.
pub struct ModGen {
    pub factorials: Vec<i64>,
    pub inv_factorials: Vec<Option<i64>>,
    /// The last factorial computed, as a value modulo the modulus.
    pub mod_max: ModInt,
}

impl ModGen {
    /// The modulus.
    pub open spec fn spec_modulo(self) -> i64 {
        self.mod_max.modulo
    }

    /// The factorial table.
    pub open spec fn table(self) -> Seq<i64> {
        self.factorials@
    }

    /// The inverse-factorial table.
    pub open spec fn inverse_table(self) -> Seq<Option<i64>> {
        self.inv_factorials@
    }

    /// The tables hold `i!` and its inverse for every index they cover, and the
    /// accumulator holds the last factorial.
    pub open spec fn wf(self) -> bool {
        let m = self.mod_max.modulo as int;
        &&& m != 0
        &&& products_fit(m)
        &&& self.mod_max.wf()
        &&& self.factorials.len() >= 2
        &&& self.inv_factorials.len() == self.factorials.len()
        &&& forall|i: int|
            0 <= i < self.factorials.len() ==> #[trigger] self.factorials@[i] == table_entry(
                i as nat,
                m,
            )
        &&& forall|i: int|
            0 <= i < self.factorials.len() ==> #[trigger] self.inv_factorials@[i] == inverse_entry(
                table_entry(i as nat, m),
                m,
            )
        &&& forall|i: int|
            0 <= i < self.factorials.len() && #[trigger] self.inv_factorials@[i] is Some ==> is_inverse(
                table_entry(i as nat, m),
                m,
                inverse(table_entry(i as nat, m), m),
            )
        &&& self.mod_max.remainder == trem(fact((self.factorials.len() - 1) as nat), m)
    }

    /// What `expand(n)` leaves: the tables cover `n`, entries already there are kept.
    pub open spec fn expanded(self, after: ModGen, n: nat) -> bool {
        &&& after.wf()
        &&& after.spec_modulo() == self.spec_modulo()
        &&& forall|i: int|
            0 <= i < after.table().len() ==> #[trigger] after.table()[i] == table_entry(
                i as nat,
                self.spec_modulo() as int,
            )
        &&& forall|i: int|
            0 <= i < after.inverse_table().len() ==> #[trigger] after.inverse_table()[i]
                == inverse_entry(table_entry(i as nat, self.spec_modulo() as int), self.spec_modulo() as int)
        &&& after.inverse_table().len() == after.table().len()
        &&& self.table().len() > n ==> after.table() == self.table()
        &&& self.table().len() > n ==> after.inverse_table() == self.inverse_table()
        &&& self.table().len() <= n ==> after.table().len() == n + 1
        &&& after.table().subrange(0, self.table().len() as int) == self.table()
    }

    /// A generator modulo `modulo`, with the tables covering `0!` and `1!`.
    pub fn new(modulo: i64) -> (r: ModGen)
        requires
            modulo != 0,
            products_fit(modulo as int),
        ensures
            r.wf(),
            r.spec_modulo() == modulo,
            r.table() == seq![1i64, 1i64],
            r.inverse_table() == seq![
                inverse_entry(1, modulo as int),
                inverse_entry(1, modulo as int),
            ],
    {
        let one: i64 = 1;
        let inv_factorial = match modinv(one, modulo) {
            Ok(i) => Some(i),
            Err(_) => None,
        };
        let factorials = vec![one, one];
        let inv_factorials = vec![inv_factorial, inv_factorial];
        let mod_max = ModInt::new(one, modulo);
        let r = ModGen { factorials, inv_factorials, mod_max };
        proof {
            assert(fact(1) == 1) by {
                reveal_with_fuel(fact, 2);
            }
            assert(r.factorials@ =~= seq![1i64, 1i64]);
            assert(r.inv_factorials@ =~= seq![
                inverse_entry(1, modulo as int),
                inverse_entry(1, modulo as int),
            ]);
        }
        r
    }

    /// The modulus.
    pub fn modulo(&self) -> (r: i64)
        ensures
            r == self.spec_modulo(),
    {
        self.mod_max.modulo
    }

    /// Grows the tables so that they cover `n`; does nothing if they already do.
    pub fn expand(&mut self, n: usize)
        requires
            old(self).wf(),
            n < i64::MAX,
            n < usize::MAX,
        ensures
            old(self).expanded(*final(self), n as nat),
    {
        let l = self.factorials.len();
        let modulo = self.mod_max.modulo;
        if l <= n {
            let ghost m = modulo as int;
            let ghost start = self.factorials@;
            let mut i: usize = l;
            while i <= n
                invariant
                    self.wf(),
                    self.mod_max.modulo == modulo,
                    m == modulo,
                    l <= i <= n + 1,
                    n < i64::MAX,
                    n < usize::MAX,
                    self.factorials@.len() == i,
                    self.factorials@.subrange(0, l as int) == start,
                    start.len() == l,
                decreases n + 1 - i,
            {
                let iv = match index_to_i64(i) {
                    Some(v) => v,
                    None => {
                        return;
                    },
                };
                let step = ModInt::new(iv, modulo);
                proof {
                    let prev = fact((i - 1) as nat);
                    lemma_product_fits(self.mod_max.remainder as int, step.remainder as int, m);
                    lemma_trem_mul(prev, i as int, m);
                    assert(fact(i as nat) == prev * i);
                }
                self.mod_max = self.mod_max.mul(step);
                let f = self.mod_max.remainder;
                proof {
                    lemma_trem_basic(fact(i as nat), m);
                    lemma_product_fits(0, 0, m);
                }
                let inv = match modinv(f, modulo) {
                    Ok(j) => Some(j),
                    Err(_) => None,
                };
                let ghost before = self.factorials@;
                let ghost inv_before = self.inv_factorials@;
                self.factorials.push(f);
                self.inv_factorials.push(inv);
                proof {
                    assert forall|j: int| 0 <= j < self.factorials.len() implies #[trigger] self.factorials@[j]
                        == table_entry(j as nat, m) by {
                        if j < i {
                            assert(self.factorials@[j] == before[j]);
                        }
                    }
                    assert forall|j: int| 0 <= j < self.factorials.len() implies #[trigger] self.inv_factorials@[j]
                        == inverse_entry(table_entry(j as nat, m), m) by {
                        if j < i {
                            assert(self.inv_factorials@[j] == inv_before[j]);
                        }
                    }
                    assert forall|j: int|
                        0 <= j < self.factorials.len() && #[trigger] self.inv_factorials@[j] is Some implies is_inverse(
                        table_entry(j as nat, m),
                        m,
                        inverse(table_entry(j as nat, m), m),
                    ) by {
                        if j < i {
                            assert(self.inv_factorials@[j] == inv_before[j]);
                        }
                    }
                    assert(self.factorials@.subrange(0, l as int) =~= before.subrange(0, l as int));
                }
                i = i + 1;
            }
        } else {
            assert(self.factorials@.subrange(0, l as int) =~= self.factorials@);
        }
    }

    /// `n!` modulo the modulus; always `Ok`.
    pub fn factorial(&mut self, n: usize) -> (r: Result<ModInt, ModopError>)
        requires
            old(self).wf(),
            n < i64::MAX,
            n < usize::MAX,
        ensures
            old(self).expanded(*final(self), n as nat),
            r == Ok::<ModInt, ModopError>(
                ModInt {
                    remainder: trem(fact(n as nat), old(self).spec_modulo() as int) as i64,
                    modulo: old(self).spec_modulo(),
                },
            ),
    {
        let modulo = self.modulo();
        self.expand(n);
        proof {
            assert(self.factorials@[n as int] == table_entry(n as nat, modulo as int));
            if n <= 1 {
                assert(fact(n as nat) == 1) by {
                    reveal_with_fuel(fact, 2);
                }
            } else {
                lemma_trem_idem(fact(n as nat), modulo as int);
            }
        }
        Ok(ModInt::new(self.factorials[n], modulo))
    }

    /// `n! * (r!)^-1` modulo the modulus, or `CannotCalculate` when `r!` has no inverse.
    pub fn permutation(&mut self, n: usize, r: usize) -> (res: Result<ModInt, ModopError>)
        requires
            old(self).wf(),
            r <= n,
            n < i64::MAX,
            n < usize::MAX,
        ensures
            old(self).expanded(*final(self), n as nat),
            !invertible_entry(r as nat, old(self).spec_modulo() as int) ==> res == Err::<
                ModInt,
                ModopError,
            >(ModopError::CannotCalculate { object: "permutation", modulo: old(self).spec_modulo() }),
            invertible_entry(r as nat, old(self).spec_modulo() as int) ==> res == Ok::<
                ModInt,
                ModopError,
            >(
                ModInt {
                    remainder: permutation_value(
                        n as nat,
                        r as nat,
                        old(self).spec_modulo() as int,
                    ) as i64,
                    modulo: old(self).spec_modulo(),
                },
            ),
    {
        let modulo = self.modulo();
        self.expand(n);
        let ghost m = modulo as int;
        let r_inv = self.inv_factorials[r];
        match r_inv {
            Some(i) => {
                let f = self.factorials[n];
                proof {
                    lemma_entry_bound(n as nat, m);
                    assert(self.inv_factorials@[r as int] is Some);
                    lemma_entry_times_inverse_fits(f as int, i as int, m);
                    lemma_trem_basic(f * i, m);
                }
                Ok(ModInt::new(f * i, modulo))
            },
            None => Err(ModopError::CannotCalculate { object: "permutation", modulo: modulo }),
        }
    }

    /// `n! * (r!)^-1 * ((n - r)!)^-1` modulo the modulus, or `CannotCalculate` when
    /// `r!` or `(n - r)!` has no inverse.
    pub fn combination(&mut self, n: usize, r: usize) -> (res: Result<ModInt, ModopError>)
        requires
            old(self).wf(),
            r <= n,
            n < i64::MAX,
            n < usize::MAX,
        ensures
            old(self).expanded(*final(self), n as nat),
            !(invertible_entry(r as nat, old(self).spec_modulo() as int) && invertible_entry(
                (n - r) as nat,
                old(self).spec_modulo() as int,
            )) ==> res == Err::<ModInt, ModopError>(
                ModopError::CannotCalculate { object: "combination", modulo: old(self).spec_modulo() },
            ),
            invertible_entry(r as nat, old(self).spec_modulo() as int) && invertible_entry(
                (n - r) as nat,
                old(self).spec_modulo() as int,
            ) ==> res == Ok::<ModInt, ModopError>(
                ModInt {
                    remainder: combination_value(
                        n as nat,
                        r as nat,
                        old(self).spec_modulo() as int,
                    ) as i64,
                    modulo: old(self).spec_modulo(),
                },
            ),
    {
        let modulo = self.modulo();
        self.expand(n);
        let ghost m = modulo as int;
        let r_inv = self.inv_factorials[r];
        let nr_inv = self.inv_factorials[n - r];
        match (r_inv, nr_inv) {
            (Some(a), Some(b)) => {
                let f = self.factorials[n];
                proof {
                    lemma_entry_bound(n as nat, m);
                    assert(self.inv_factorials@[r as int] is Some);
                    assert(self.inv_factorials@[(n - r) as int] is Some);
                    lemma_entry_times_inverse_fits(f as int, a as int, m);
                    lemma_trem_basic(f * a, m);
                }
                let comb = ModInt::new(f * a, modulo);
                proof {
                    lemma_product_fits(comb.remainder as int, b as int, m);
                    lemma_trem_basic(comb.remainder * b, m);
                }
                Ok(ModInt::new(comb.remainder * b, modulo))
            },
            _ => Err(ModopError::CannotCalculate { object: "combination", modulo: modulo }),
        }
    }
}

/// Choosing `r` of `n` is choosing the `n - r` left out.
pub proof fn lemma_combination_symmetric(n: nat, r: nat, m: int)
    requires
        m != 0,
        r <= n,
        invertible_entry(r, m),
        invertible_entry((n - r) as nat, m),
    ensures
        combination_value(n, r, m) == combination_value(n, (n - r) as nat, m),
{
    let f = table_entry(n, m);
    let x = inverse(table_entry(r, m), m);
    let y = inverse(table_entry((n - r) as nat, m), m);
    lemma_inverse_exists(table_entry(r, m), m);
    lemma_inverse_exists(table_entry((n - r) as nat, m), m);
    lemma_trem_mul(f * x, y, m);
    lemma_trem_mul(f * y, x, m);
    lemma_trem_small(x, m);
    lemma_trem_small(y, m);
    assert((n - (n - r)) as nat == r);
    assert(f * x * y == f * y * x) by (nonlinear_arith);
}

/// A combination is the permutation `n! * (r!)^-1` times the inverse of `(n - r)!`.
pub proof fn lemma_combination_from_permutation(n: nat, r: nat, m: int)
    requires
        m != 0,
        r <= n,
    ensures
        combination_value(n, r, m) == trem(
            permutation_value(n, r, m) * inverse(table_entry((n - r) as nat, m), m),
            m,
        ),
{
}

/// Expanding to `n` and then to any `k <= n` leaves both tables and the modulus
/// as the first expansion left them.
pub proof fn lemma_expand_idempotent(g0: ModGen, g1: ModGen, g2: ModGen, n: nat, k: nat)
    requires
        g0.expanded(g1, n),
        g1.expanded(g2, k),
        k <= n,
    ensures
        g2.table() == g1.table(),
        g2.inverse_table() == g1.inverse_table(),
        g2.spec_modulo() == g1.spec_modulo(),
{
}

} // verus!
