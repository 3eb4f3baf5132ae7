//! Binomial coefficients, the weights of the Bernstein form of a Bézier curve.
use vstd::prelude::*;
use vstd::arithmetic::div_mod::lemma_fundamental_div_mod;
use vstd::arithmetic::div_mod::lemma_div_by_multiple;

verus! {

/// The number of ways to choose `k` out of `n`, by Pascal's rule.
pub open spec fn binomial(n: nat, k: nat) -> nat
    decreases n,
{
    if k == 0 {
        1
    } else if n == 0 {
        0
    } else {
        binomial((n - 1) as nat, (k - 1) as nat) + binomial((n - 1) as nat, k)
    }
}

/// A number as far as 128 bits hold it: itself, or else the largest value.
pub open spec fn saturated(value: nat) -> u128 {
    if value >= u128::MAX {
        u128::MAX
    } else {
        value as u128
    }
}

/// There is no way to choose more than there is.
pub proof fn lemma_binomial_beyond(n: nat, k: nat)
    requires
        k > n,
    ensures
        binomial(n, k) == 0,
    decreases n,
{
    if n > 0 {
        lemma_binomial_beyond((n - 1) as nat, (k - 1) as nat);
        lemma_binomial_beyond((n - 1) as nat, k);
    }
}

/// There is a way to choose no more than there is.
pub proof fn lemma_binomial_positive(n: nat, k: nat)
    requires
        k <= n,
    ensures
        binomial(n, k) >= 1,
    decreases n,
{
    if k > 0 {
        lemma_binomial_positive((n - 1) as nat, (k - 1) as nat);
    }
}

/// There is one way to choose all.
pub proof fn lemma_binomial_full(n: nat)
    ensures
        binomial(n, n) == 1,
    decreases n,
{
    if n > 0 {
        lemma_binomial_full((n - 1) as nat);
        lemma_binomial_beyond((n - 1) as nat, n);
    }
}

/// To choose `k` is to leave `n - k`: a row of coefficients reads the same
/// from both ends.
pub proof fn lemma_binomial_symmetric(n: nat, k: nat)
    requires
        k <= n,
    ensures
        binomial(n, k) == binomial(n, (n - k) as nat),
    decreases n,
{
    if k == 0 || k == n {
        lemma_binomial_full(n);
    } else {
        lemma_binomial_symmetric((n - 1) as nat, (k - 1) as nat);
        lemma_binomial_symmetric((n - 1) as nat, k);
    }
}

/// `k * C(n, k) == n * C(n - 1, k - 1)`.
pub proof fn lemma_binomial_absorb(n: nat, k: nat)
    requires
        n >= 1,
        k >= 1,
    ensures
        k * binomial(n, k) == n * binomial((n - 1) as nat, (k - 1) as nat),
    decreases n,
{
    let above = binomial((n - 1) as nat, (k - 1) as nat);
    let beside = binomial((n - 1) as nat, k);
    if n == 1 {
        assert(k * (above + beside) == n * above) by (nonlinear_arith)
            requires
                n == 1,
                beside == 0,
                k == 1 || above == 0,
        ;
    } else if k == 1 {
        lemma_binomial_absorb((n - 1) as nat, 1);
        assert(1 * beside == (n - 1) * 1);
        assert(k * (above + beside) == n * above) by (nonlinear_arith)
            requires
                k == 1,
                above == 1,
                beside == n - 1,
        ;
    } else {
        let corner = binomial((n - 2) as nat, (k - 2) as nat);
        let middle = binomial((n - 2) as nat, (k - 1) as nat);
        lemma_binomial_absorb((n - 1) as nat, k);
        lemma_binomial_absorb((n - 1) as nat, (k - 1) as nat);
        assert(k * (above + beside) == n * above) by (nonlinear_arith)
            requires
                above == corner + middle,
                k * beside == (n - 1) * middle,
                (k - 1) * above == (n - 1) * corner,
        ;
    }
}

/// Each coefficient of a row follows from the one before it:
/// `k * C(n, k) == (n - k + 1) * C(n, k - 1)`.
pub proof fn lemma_binomial_step(n: nat, k: nat)
    requires
        1 <= k <= n,
    ensures
        k * binomial(n, k) == (n - k + 1) * binomial(n, (k - 1) as nat),
{
    let above = binomial((n - 1) as nat, (k - 1) as nat);
    let before = binomial(n, (k - 1) as nat);
    lemma_binomial_absorb(n, k);
    if k > 1 {
        let corner = binomial((n - 1) as nat, (k - 2) as nat);
        lemma_binomial_absorb(n, (k - 1) as nat);
        assert((n - k + 1) * before == n * above) by (nonlinear_arith)
            requires
                before == corner + above,
                (k - 1) * before == n * corner,
        ;
    }
}

/// The coefficients of a row do not fall before its middle.
pub proof fn lemma_binomial_rising(n: nat, k: nat)
    requires
        1 <= k,
        2 * k <= n,
    ensures
        binomial(n, (k - 1) as nat) <= binomial(n, k),
{
    let before = binomial(n, (k - 1) as nat);
    let here = binomial(n, k);
    lemma_binomial_step(n, k);
    assert(before <= here) by (nonlinear_arith)
        requires
            k * here == (n - k + 1) * before,
            1 <= k,
            2 * k <= n,
    ;
}

/// The coefficients of one degree, as far as 128 bits hold them. Only the
/// first half of the row is kept; the second half mirrors it.
pub struct BinomialTable {
    degree: usize,
    half: Vec<u128>,
}

impl BinomialTable {
    #[verifier::type_invariant]
    spec fn well_formed(&self) -> bool {
        &&& self.half@.len() == self.degree / 2 + 1
        &&& forall|k: int|
            0 <= k < self.half@.len() ==> self.half@[k] == saturated(
                binomial(self.degree as nat, k as nat),
            )
    }

    /// The degree that the table was made for.
    pub closed spec fn spec_degree(&self) -> nat {
        self.degree as nat
    }

    /// The table of the coefficients `C(degree, 0)` to `C(degree, degree)`.
    pub fn new(degree: usize) -> (table: Self)
        ensures
            table.spec_degree() == degree,
    {
        let mut half: Vec<u128> = Vec::with_capacity(degree / 2 + 1);
        half.push(1);
        let mut k: usize = 1;
        while k <= degree / 2
            invariant
                1 <= k <= degree / 2 + 1,
                half@.len() == k,
                forall|j: int|
                    0 <= j < k ==> half@[j] == saturated(binomial(degree as nat, j as nat)),
            decreases degree / 2 + 1 - k,
        {
            let next = Self::successor(half[k - 1], degree, k);
            half.push(next);
            k += 1;
        }
        BinomialTable { degree, half }
    }

    /// `C(degree, k)` from `C(degree, k - 1)`, both as far as 128 bits hold
    /// them.
    fn successor(previous: u128, degree: usize, k: usize) -> (next: u128)
        requires
            1 <= k,
            2 * k <= degree,
            previous == saturated(binomial(degree as nat, (k - 1) as nat)),
        ensures
            next == saturated(binomial(degree as nat, k as nat)),
    {
        let ghost before = binomial(degree as nat, (k - 1) as nat);
        let ghost here = binomial(degree as nat, k as nat);
        proof {
            lemma_binomial_rising(degree as nat, k as nat);
            lemma_binomial_step(degree as nat, k as nat);
        }
        if previous == u128::MAX {
            return u128::MAX;
        }
        let factor: u128 = (degree - k + 1) as u128;
        let divisor: u128 = k as u128;
        let quotient: u128 = previous / divisor;
        let rest: u128 = previous % divisor;
        assert(rest * factor <= u128::MAX) by (nonlinear_arith)
            requires
                rest < 0x1_0000_0000_0000_0000,
                factor < 0x1_0000_0000_0000_0000,
        ;
        let low: u128 = rest * factor / divisor;
        proof {
            lemma_fundamental_div_mod(previous as int, divisor as int);
            let rise = here - quotient * factor;
            assert(rest * factor == divisor * rise && rise >= 0) by (nonlinear_arith)
                requires
                    divisor * here == factor * before,
                    before == divisor * quotient + rest,
                    rise == here - quotient * factor,
                    divisor >= 1,
                    rest >= 0,
                    factor >= 0,
            ;
            lemma_div_by_multiple(rise, divisor as int);
        }
        match quotient.checked_mul(factor) {
            None => u128::MAX,
            Some(high) => match high.checked_add(low) {
                None => u128::MAX,
                Some(sum) => sum,
            },
        }
    }

    /// The degree that the table was made for.
    pub fn degree(&self) -> (degree: usize)
        ensures
            degree == self.spec_degree(),
    {
        self.degree
    }

    /// The coefficient `C(degree, k)`, or the largest value of 128 bits where
    /// the coefficient is larger than that. Beyond the end of the row the
    /// coefficients are zero.
    pub fn coefficient(&self, k: usize) -> (coefficient: u128)
        ensures
            coefficient == saturated(binomial(self.spec_degree(), k as nat)),
    {
        proof {
            use_type_invariant(self);
        }
        if k > self.degree {
            proof {
                lemma_binomial_beyond(self.degree as nat, k as nat);
            }
            return 0;
        }
        proof {
            lemma_binomial_symmetric(self.degree as nat, k as nat);
        }
        let mirrored: usize = self.degree - k;
        let index: usize = if k <= mirrored {
            k
        } else {
            mirrored
        };
        self.half[index]
    }
}

} // verus!
