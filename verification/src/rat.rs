//! Exact rational numbers with `i64` components and checked arithmetic.
//!
//! A [`Rat`] stores a numerator and a positive denominator; it is not
//! reduced to lowest terms. Each arithmetic operation computes the exact
//! mathematical result and returns `None` when a component would leave the
//! `i64` range.

use vstd::prelude::*;

verus! {

/// An exact rational number `num / den`, with `den > 0`.
#[derive(Clone, Copy, Debug)]
pub struct Rat {
    pub num: i64,
    pub den: i64,
}

/// `x` lies within the `i64` range.
pub open spec fn in_i64(x: int) -> bool {
    i64::MIN as int <= x <= i64::MAX as int
}

/// Absolute value of an integer.
pub open spec fn abs_i(x: int) -> int {
    if x < 0 {
        -x
    } else {
        x
    }
}

impl Rat {
    /// Well-formed: the denominator is positive.
    pub open spec fn wf(self) -> bool {
        self.den > 0
    }

    /// Two rationals denote the same value exactly when they
    /// cross-multiply equally.
    pub open spec fn same_value(self, other: Rat) -> bool {
        self.num * other.den == other.num * self.den
    }

    /// The rational `num / den` for a positive denominator.
    pub fn new(num: i64, den: i64) -> (r: Rat)
        requires
            den > 0,
        ensures
            r == (Rat { num, den }),
            r.wf(),
    {
        Rat { num, den }
    }

    /// The rational `n / 1`.
    pub fn from_int(n: i64) -> (r: Rat)
        ensures
            r == (Rat { num: n, den: 1 }),
            r.wf(),
    {
        Rat { num: n, den: 1 }
    }
}

/// Exact sum, or `None` when a component leaves the `i64` range.
pub open spec fn spec_add(a: Rat, b: Rat) -> Option<Rat> {
    let n = a.num * b.den + b.num * a.den;
    let d = a.den * b.den;
    if in_i64(n) && in_i64(d) {
        Some(Rat { num: n as i64, den: d as i64 })
    } else {
        None
    }
}

/// Exact difference, or `None` when a component leaves the `i64` range.
pub open spec fn spec_sub(a: Rat, b: Rat) -> Option<Rat> {
    let n = a.num * b.den - b.num * a.den;
    let d = a.den * b.den;
    if in_i64(n) && in_i64(d) {
        Some(Rat { num: n as i64, den: d as i64 })
    } else {
        None
    }
}

/// Exact product, or `None` when a component leaves the `i64` range.
pub open spec fn spec_mul(a: Rat, b: Rat) -> Option<Rat> {
    let n = a.num * b.num;
    let d = a.den * b.den;
    if in_i64(n) && in_i64(d) {
        Some(Rat { num: n as i64, den: d as i64 })
    } else {
        None
    }
}

/// Exact quotient (meaningful only for `b.num != 0`), sign-normalised so
/// the denominator stays positive; `None` when a component leaves the
/// `i64` range.
pub open spec fn spec_div(a: Rat, b: Rat) -> Option<Rat> {
    let n0 = a.num * b.den;
    let d0 = a.den * b.num;
    let n = if d0 < 0 {
        -n0
    } else {
        n0
    };
    let d = if d0 < 0 {
        -d0
    } else {
        d0
    };
    if in_i64(n) && in_i64(d) {
        Some(Rat { num: n as i64, den: d as i64 })
    } else {
        None
    }
}

/// Exact reciprocal: `None` for zero, and for the one numerator whose
/// negation does not fit in `i64`.
pub open spec fn spec_recip(a: Rat) -> Option<Rat> {
    if a.num == 0 {
        None
    } else if a.num > 0 {
        Some(Rat { num: a.den, den: a.num })
    } else if a.num == i64::MIN {
        None
    } else {
        Some(Rat { num: (-(a.den as int)) as i64, den: (-(a.num as int)) as i64 })
    }
}

/// `a` raised to the `k`-th power as the `k`-fold checked product;
/// `None` as soon as an intermediate product leaves the `i64` range.
pub open spec fn spec_pow(a: Rat, k: nat) -> Option<Rat>
    decreases k,
{
    if k == 0 {
        Some(Rat { num: 1, den: 1 })
    } else {
        match spec_pow(a, (k - 1) as nat) {
            Option::None => Option::None,
            Option::Some(p) => spec_mul(p, a),
        }
    }
}

/// The mathematical factorial.
pub open spec fn spec_fact(n: nat) -> nat
    decreases n,
{
    if n == 0 {
        1
    } else {
        n * spec_fact((n - 1) as nat)
    }
}

/// A product of two `i64`-range factors stays within `2^126` in magnitude.
pub proof fn lemma_i64_prod_bounds(x: int, y: int)
    by (nonlinear_arith)
    requires
        -0x8000_0000_0000_0000 <= x <= 0x7fff_ffff_ffff_ffff,
        -0x8000_0000_0000_0000 <= y <= 0x7fff_ffff_ffff_ffff,
    ensures
        -0x4000_0000_0000_0000_0000_0000_0000_0000 <= x * y
            <= 0x4000_0000_0000_0000_0000_0000_0000_0000,
{
}

/// A product with a positive `i64`-range second factor stays within
/// `2^126 - 2^63` in magnitude.
pub proof fn lemma_i64_prod_pos_bounds(x: int, y: int)
    by (nonlinear_arith)
    requires
        -0x8000_0000_0000_0000 <= x <= 0x7fff_ffff_ffff_ffff,
        1 <= y <= 0x7fff_ffff_ffff_ffff,
    ensures
        -0x3fff_ffff_ffff_ffff_8000_0000_0000_0000 <= x * y
            <= 0x3fff_ffff_ffff_ffff_8000_0000_0000_0000,
{
}

/// Sign of a product with a positive first factor.
pub proof fn lemma_prod_sign(x: int, y: int)
    by (nonlinear_arith)
    requires
        x >= 1,
    ensures
        y >= 1 ==> x * y >= 1,
        y <= -1 ==> x * y <= -1,
        y >= 0 ==> x * y >= 0,
{
}

impl Rat {
    /// Checked addition of exact rationals.
    pub fn add(self, other: Rat) -> (r: Option<Rat>)
        requires
            self.wf(),
            other.wf(),
        ensures
            r == spec_add(self, other),
            r matches Some(c) ==> c.wf(),
    {
        proof {
            lemma_i64_prod_pos_bounds(self.num as int, other.den as int);
            lemma_i64_prod_pos_bounds(other.num as int, self.den as int);
            lemma_i64_prod_pos_bounds(self.den as int, other.den as int);
            lemma_prod_sign(self.den as int, other.den as int);
        }
        let n: i128 = (self.num as i128) * (other.den as i128) + (other.num as i128) * (self.den
            as i128);
        let d: i128 = (self.den as i128) * (other.den as i128);
        if n < (i64::MIN as i128) || n > (i64::MAX as i128) || d > (i64::MAX as i128) {
            None
        } else {
            Some(Rat { num: n as i64, den: d as i64 })
        }
    }

    /// Checked subtraction of exact rationals.
    pub fn sub(self, other: Rat) -> (r: Option<Rat>)
        requires
            self.wf(),
            other.wf(),
        ensures
            r == spec_sub(self, other),
            r matches Some(c) ==> c.wf(),
    {
        proof {
            lemma_i64_prod_pos_bounds(self.num as int, other.den as int);
            lemma_i64_prod_pos_bounds(other.num as int, self.den as int);
            lemma_i64_prod_pos_bounds(self.den as int, other.den as int);
            lemma_prod_sign(self.den as int, other.den as int);
        }
        let n: i128 = (self.num as i128) * (other.den as i128) - (other.num as i128) * (self.den
            as i128);
        let d: i128 = (self.den as i128) * (other.den as i128);
        if n < (i64::MIN as i128) || n > (i64::MAX as i128) || d > (i64::MAX as i128) {
            None
        } else {
            Some(Rat { num: n as i64, den: d as i64 })
        }
    }

    /// Checked multiplication of exact rationals.
    pub fn mul(self, other: Rat) -> (r: Option<Rat>)
        requires
            self.wf(),
            other.wf(),
        ensures
            r == spec_mul(self, other),
            r matches Some(c) ==> c.wf(),
    {
        proof {
            lemma_i64_prod_bounds(self.num as int, other.num as int);
            lemma_i64_prod_pos_bounds(self.den as int, other.den as int);
            lemma_prod_sign(self.den as int, other.den as int);
        }
        let n: i128 = (self.num as i128) * (other.num as i128);
        let d: i128 = (self.den as i128) * (other.den as i128);
        if n < (i64::MIN as i128) || n > (i64::MAX as i128) || d > (i64::MAX as i128) {
            None
        } else {
            Some(Rat { num: n as i64, den: d as i64 })
        }
    }

    /// Checked division of exact rationals; the divisor must be non-zero.
    pub fn div(self, other: Rat) -> (r: Option<Rat>)
        requires
            self.wf(),
            other.wf(),
            other.num != 0,
        ensures
            r == spec_div(self, other),
            r matches Some(c) ==> c.wf(),
    {
        proof {
            lemma_i64_prod_pos_bounds(self.num as int, other.den as int);
            lemma_i64_prod_bounds(self.den as int, other.num as int);
            lemma_prod_sign(self.den as int, other.num as int);
        }
        let n0: i128 = (self.num as i128) * (other.den as i128);
        let d0: i128 = (self.den as i128) * (other.num as i128);
        let n: i128 = if d0 < 0 {
            -n0
        } else {
            n0
        };
        let d: i128 = if d0 < 0 {
            -d0
        } else {
            d0
        };
        if n < (i64::MIN as i128) || n > (i64::MAX as i128) || d > (i64::MAX as i128) {
            None
        } else {
            Some(Rat { num: n as i64, den: d as i64 })
        }
    }

    /// Checked reciprocal; the receiver must be well-formed.
    pub fn recip(self) -> (r: Option<Rat>)
        requires
            self.wf(),
        ensures
            r == spec_recip(self),
            r matches Some(c) ==> c.wf(),
    {
        if self.num == 0 {
            None
        } else if self.num > 0 {
            Some(Rat { num: self.den, den: self.num })
        } else if self.num == i64::MIN {
            None
        } else {
            Some(Rat { num: -self.den, den: -self.num })
        }
    }

    /// Checked power: the `k`-fold product of `self` with itself.
    pub fn pow(self, k: u64) -> (r: Option<Rat>)
        requires
            self.wf(),
        ensures
            r == spec_pow(self, k as nat),
            r matches Some(c) ==> c.wf(),
    {
        let mut acc = Rat { num: 1, den: 1 };
        let mut i: u64 = 0;
        while i < k
            invariant
                self.wf(),
                acc.wf(),
                i <= k,
                spec_pow(self, i as nat) == Some(acc),
            decreases k - i,
        {
            match acc.mul(self) {
                Some(next) => {
                    acc = next;
                    i = i + 1;
                },
                None => {
                    proof {
                        lemma_pow_none(self, (i + 1) as nat, k as nat);
                    }
                    return None;
                },
            }
        }
        Some(acc)
    }

    /// Decompose an exact integer value into sign and magnitude: `Some`
    /// exactly when the denominator divides the numerator.
    pub fn as_integer(self) -> (r: Option<(bool, u64)>)
        requires
            self.wf(),
        ensures
            r is Some <==> abs_i(self.num as int) % (self.den as int) == 0,
            r matches Some(p) ==> (p.1 as int) * (self.den as int) == abs_i(self.num as int)
                && p.0 == (self.num < 0),
    {
        let nn: u64 = if self.num < 0 {
            (-(self.num as i128)) as u64
        } else {
            self.num as u64
        };
        let dd: u64 = self.den as u64;
        let q: u64 = nn / dd;
        let rem: u64 = nn % dd;
        proof {
            vstd::arithmetic::div_mod::lemma_fundamental_div_mod(nn as int, dd as int);
            assert(nn as int == abs_i(self.num as int));
            assert(nn as int == (dd as int) * (q as int) + (rem as int));
        }
        if rem != 0 {
            None
        } else {
            assert((q as int) * (self.den as int) == abs_i(self.num as int));
            Some((self.num < 0, q))
        }
    }
}

/// Once an intermediate power overflows, every later power overflows.
pub proof fn lemma_pow_none(a: Rat, i: nat, k: nat)
    requires
        i <= k,
        spec_pow(a, i) is None,
    ensures
        spec_pow(a, k) is None,
    decreases k,
{
    if k > i {
        lemma_pow_none(a, i, (k - 1) as nat);
    }
}

/// Factorial is monotone.
pub proof fn lemma_fact_monotonic(m: nat, n: nat)
    requires
        m <= n,
    ensures
        spec_fact(m) <= spec_fact(n),
    decreases n,
{
    if n > m {
        lemma_fact_monotonic(m, (n - 1) as nat);
        assert(n * spec_fact((n - 1) as nat) >= spec_fact((n - 1) as nat))
            by (nonlinear_arith)
            requires
                n >= 1,
        ;
    }
}

/// The largest factorial that fits in an `i64`, and the first that does not.
pub proof fn lemma_fact_small()
    ensures
        spec_fact(20) == 2432902008176640000,
        spec_fact(21) > i64::MAX as int,
{
    reveal_with_fuel(spec_fact, 22);
}

/// Checked factorial of a machine integer: `Some` exactly when the
/// mathematical factorial fits in an `i64`.
pub fn fact_i64(k: u64) -> (r: Option<i64>)
    ensures
        r == (if spec_fact(k as nat) <= i64::MAX as int {
            Some(spec_fact(k as nat) as i64)
        } else {
            None::<i64>
        }),
{
    if k > 20 {
        proof {
            lemma_fact_small();
            lemma_fact_monotonic(21, k as nat);
        }
        return None;
    }
    let mut acc: i64 = 1;
    let mut i: u64 = 0;
    while i < k
        invariant
            i <= k,
            k <= 20,
            acc as int == spec_fact(i as nat),
        decreases k - i,
    {
        proof {
            lemma_fact_monotonic((i + 1) as nat, 20);
            lemma_fact_small();
            assert(spec_fact((i + 1) as nat) == (i + 1) * spec_fact(i as nat));
            assert((i + 1) * spec_fact(i as nat) == (acc as int) * ((i + 1) as int));
            assert((acc as int) * ((i + 1) as int) >= 0) by (nonlinear_arith)
                requires
                    acc as int >= 0,
                    i as int >= 0,
            ;
        }
        let next_i: u64 = i + 1;
        acc = acc * (next_i as i64);
        i = next_i;
    }
    proof {
        lemma_fact_monotonic(k as nat, 20);
        lemma_fact_small();
    }
    Some(acc)
}

impl PartialEq for Rat {
    /// Value equality: cross-multiplication.
    fn eq(&self, other: &Rat) -> bool {
        proof {
            lemma_i64_prod_bounds(self.num as int, other.den as int);
            lemma_i64_prod_bounds(other.num as int, self.den as int);
        }
        (self.num as i128) * (other.den as i128) == (other.num as i128) * (self.den as i128)
    }
}

impl vstd::std_specs::cmp::PartialEqSpecImpl for Rat {
    open spec fn obeys_eq_spec() -> bool {
        true
    }

    open spec fn eq_spec(&self, other: &Rat) -> bool {
        self.same_value(*other)
    }
}

} // verus!
