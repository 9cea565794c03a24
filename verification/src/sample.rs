//! Uniform samples of the unit interval, held as exact fractions.

use rand::Rng;
use vstd::prelude::*;

verus! {

/// Number of equally likely values a drawn sample can take: two to the power 53.
pub const RESOLUTION: u64 = 9_007_199_254_740_992;

/// The mathematical value of a [`Sample`]: `numerator / denominator`.
pub struct Fraction {
    pub numerator: nat,
    pub denominator: nat,
}

impl Fraction {
    /// The fraction lies in the half-open unit interval `[0, 1)`.
    pub open spec fn in_unit_interval(self) -> bool {
        self.numerator < self.denominator
    }

    /// The integer part of the fraction multiplied by `n`.
    pub open spec fn scaled(self, n: nat) -> nat {
        self.numerator * n / self.denominator
    }
}

/// A point of the half-open unit interval `[0, 1)`.
#[derive(Clone, Copy, Debug, PartialEq, Eq)]
pub struct Sample {
    numerator: u64,
    denominator: u64,
}

impl View for Sample {
    type V = Fraction;

    closed spec fn view(&self) -> Fraction {
        Fraction { numerator: self.numerator as nat, denominator: self.denominator as nat }
    }
}

impl Sample {
    #[verifier::type_invariant]
    spec fn below_one(self) -> bool {
        self.numerator < self.denominator
    }

    /// The point `numerator / denominator`, if it lies in `[0, 1)`.
    pub fn new(numerator: u64, denominator: u64) -> (sample: Option<Sample>)
        ensures
            numerator < denominator ==> (sample matches Some(s) && s@ == (Fraction {
                numerator: numerator as nat,
                denominator: denominator as nat,
            })),
            numerator >= denominator ==> sample is None,
    {
        if numerator < denominator {
            Some(Sample { numerator, denominator })
        } else {
            None
        }
    }

    pub fn numerator(&self) -> (n: u64)
        ensures
            n == self@.numerator,
    {
        self.numerator
    }

    pub fn denominator(&self) -> (d: u64)
        ensures
            d == self@.denominator,
            self@.in_unit_interval(),
    {
        proof {
            use_type_invariant(self);
        }
        self.denominator
    }

    /// The integer part of `n` times the sample: an index below `n`, each
    /// index standing for an equal share of the unit interval.
    pub fn scale(&self, n: u64) -> (index: u64)
        ensures
            index == self@.scaled(n as nat),
            n > 0 ==> index < n,
    {
        proof {
            use_type_invariant(self);
            lemma_scaled_below(self@, n as nat);
            assert(self.numerator * n <= u64::MAX * u64::MAX) by (nonlinear_arith)
                requires
                    self.numerator <= u64::MAX,
                    n <= u64::MAX,
            ;
        }
        let product: u128 = (self.numerator as u128) * (n as u128);
        let quotient: u128 = product / (self.denominator as u128);
        quotient as u64
    }

    /// Draws a sample from the thread-local random generator.
    pub fn random() -> (sample: Sample)
        ensures
            sample@.denominator == RESOLUTION,
            sample@.in_unit_interval(),
    {
        let numerator: u64 = random_below(RESOLUTION);
        Sample { numerator, denominator: RESOLUTION }
    }
}

/// Scaling a point of the unit interval by `n` stays below `n`, and at zero
/// for `n == 0`.
pub proof fn lemma_scaled_below(f: Fraction, n: nat)
    requires
        f.in_unit_interval(),
    ensures
        n > 0 ==> f.scaled(n) < n,
        n == 0 ==> f.scaled(n) == 0,
        f.scaled(n) <= n,
{
    let q = f.numerator * n / f.denominator;
    assert(f.numerator * n == f.denominator * q + (f.numerator * n) % f.denominator) by {
        vstd::arithmetic::div_mod::lemma_fundamental_div_mod(
            (f.numerator * n) as int,
            f.denominator as int,
        );
    }
    if n > 0 {
        assert(q < n) by (nonlinear_arith)
            requires
                f.numerator < f.denominator,
                n > 0,
                q >= 0,
                f.denominator * q <= f.numerator * n,
        ;
    } else {
        assert(f.numerator * n == 0) by (nonlinear_arith)
            requires
                n == 0,
        ;
    }
}

/// Scaling by `n` cuts the unit interval into `n` equal shares: the scaled
/// value is `index` exactly for the points from `index / n` up to, and not
/// including, `(index + 1) / n`.
pub proof fn lemma_scaled_share(f: Fraction, n: nat, index: nat)
    requires
        f.denominator > 0,
    ensures
        f.scaled(n) == index <==> index * f.denominator <= f.numerator * n < (index + 1)
            * f.denominator,
{
    let product = (f.numerator * n) as int;
    let d = f.denominator as int;
    let q = product / d;
    vstd::arithmetic::div_mod::lemma_fundamental_div_mod(product, d);
    vstd::arithmetic::div_mod::lemma_mod_bound(product, d);
    assert(d * q <= product < d * q + d);
    if q == index {
        assert(index * d == d * q) by (nonlinear_arith)
            requires
                q == index,
        ;
        assert((index + 1) * d == d * q + d) by (nonlinear_arith)
            requires
                q == index,
        ;
    }
    if index * d <= product && product < (index + 1) * d {
        assert(q == index) by (nonlinear_arith)
            requires
                d * q <= product < d * q + d,
                index * d <= product < (index + 1) * d,
                d > 0,
        ;
    }
}

/// Calls `Rng::gen_range(0..bound)` of the rand crate on the generator that
/// `rand::thread_rng()` hands out. The contract claims only the range of the
/// result; which value comes back is left open, and so is how the values
/// are spread. `gen_range` panics on an empty range, which `bound > 0`
/// excludes. `thread_rng` panics where the operating system has no
/// randomness to seed the generator with; no argument can exclude that.
#[verifier::external_body]
fn random_below(bound: u64) -> (value: u64)
    requires
        bound > 0,
    ensures
        value < bound,
{
    rand::thread_rng().gen_range(0..bound)
}

} // verus!
