//! Exact rational constants of the expression language.
//!
//! A numeric constant of an expression is an exact rational `n / d` with
//! `d >= 1`.  Decimal literals, `pi` and `e` (as their nearest double
//! values) are all such rationals.  The smart constructors fold constant
//! subtrees with checked arithmetic: a fold that would leave the `i64`
//! range simply does not happen and the subtree stays symbolic, which
//! preserves the function's value.

use vstd::prelude::*;

verus! {

/// An exact rational number `n / d`.
#[derive(Clone, Copy, Debug, PartialEq, Eq, Structural)]
pub struct Rat {
    pub n: i64,
    pub d: i64,
}

/// Builds a rational from exact integer numerator and denominator,
/// unless either leaves the `i64` range.
pub open spec fn spec_mk(n: int, d: int) -> Option<Rat> {
    if i64::MIN <= n <= i64::MAX && 1 <= d <= i64::MAX {
        Some(Rat { n: n as i64, d: d as i64 })
    } else {
        None
    }
}

/// `a + b` on exact rationals, when representable.
pub open spec fn spec_add(a: Rat, b: Rat) -> Option<Rat> {
    spec_mk(a.n * b.d + b.n * a.d, a.d * b.d)
}

/// `a - b` on exact rationals, when representable.
pub open spec fn spec_sub(a: Rat, b: Rat) -> Option<Rat> {
    spec_mk(a.n * b.d - b.n * a.d, a.d * b.d)
}

/// `a * b` on exact rationals, when representable.
pub open spec fn spec_mul(a: Rat, b: Rat) -> Option<Rat> {
    spec_mk(a.n * b.n, a.d * b.d)
}

/// `a / b` on exact rationals, when `b` is nonzero and the result is
/// representable.
pub open spec fn spec_div(a: Rat, b: Rat) -> Option<Rat> {
    if b.n == 0 {
        None
    } else if b.n > 0 {
        spec_mk(a.n * b.d, a.d * b.n)
    } else {
        spec_mk(-(a.n * b.d), -(a.d * b.n))
    }
}

/// `a^k` for a natural exponent, when representable.
pub open spec fn spec_pow(a: Rat, k: nat) -> Option<Rat>
    decreases k,
{
    if k == 0 {
        Some(Rat { n: 1, d: 1 })
    } else {
        match spec_pow(a, (k - 1) as nat) {
            Some(p) => spec_mul(p, a),
            None => None,
        }
    }
}

impl Rat {
    /// Denominator at least one.
    pub open spec fn wf(self) -> bool {
        self.d >= 1
    }

    pub open spec fn is_zero(self) -> bool {
        self.n == 0
    }

    pub open spec fn is_one(self) -> bool {
        self.n == self.d
    }

    pub open spec fn is_half(self) -> bool {
        2 * self.n == self.d
    }

    /// The integer value of the rational, meaningful when it is exact.
    pub open spec fn int_val(self) -> int {
        self.n / self.d
    }

    /// Whether the rational is an exact integer.
    pub open spec fn is_int(self) -> bool {
        self.n % self.d == 0
    }

    pub fn zero() -> (r: Rat)
        ensures
            r == (Rat { n: 0, d: 1 }),
    {
        Rat { n: 0, d: 1 }
    }

    pub fn one() -> (r: Rat)
        ensures
            r == (Rat { n: 1, d: 1 }),
    {
        Rat { n: 1, d: 1 }
    }

    pub fn from_int(n: i64) -> (r: Rat)
        ensures
            r == (Rat { n, d: 1 }),
    {
        Rat { n, d: 1 }
    }

    /// The double nearest to the circle constant, as an exact rational.
    pub fn pi() -> (r: Rat)
        ensures
            r == (Rat { n: 884279719003555, d: 281474976710656 }),
    {
        Rat { n: 884279719003555, d: 281474976710656 }
    }

    /// The double nearest to Euler's number, as an exact rational.
    pub fn euler() -> (r: Rat)
        ensures
            r == (Rat { n: 6121026514868073, d: 2251799813685248 }),
    {
        Rat { n: 6121026514868073, d: 2251799813685248 }
    }

    pub fn eq_zero(&self) -> (r: bool)
        ensures
            r == self.is_zero(),
    {
        self.n == 0
    }

    pub fn eq_one(&self) -> (r: bool)
        requires
            self.wf(),
        ensures
            r == self.is_one(),
    {
        self.n == self.d
    }

    pub fn eq_half(&self) -> (r: bool)
        requires
            self.wf(),
        ensures
            r == self.is_half(),
    {
        1 <= self.n && self.n <= i64::MAX / 2 && 2 * self.n == self.d
    }

    pub fn checked_add(self, other: Rat) -> (r: Option<Rat>)
        requires
            self.wf(),
            other.wf(),
        ensures
            r == spec_add(self, other),
            r is Some ==> r->0.wf(),
    {
        proof {
            lemma_prod_bound_pos(self.n as int, other.d as int);
            lemma_prod_bound_pos(other.n as int, self.d as int);
            lemma_prod_bound_pos(self.d as int, other.d as int);
            lemma_den_prod_pos(self.d as int, other.d as int);
        }
        let n: i128 = self.n as i128 * other.d as i128 + other.n as i128 * self.d as i128;
        let d: i128 = self.d as i128 * other.d as i128;
        mk_checked(n, d)
    }

    pub fn checked_sub(self, other: Rat) -> (r: Option<Rat>)
        requires
            self.wf(),
            other.wf(),
        ensures
            r == spec_sub(self, other),
            r is Some ==> r->0.wf(),
    {
        proof {
            lemma_prod_bound_pos(self.n as int, other.d as int);
            lemma_prod_bound_pos(other.n as int, self.d as int);
            lemma_prod_bound_pos(self.d as int, other.d as int);
            lemma_den_prod_pos(self.d as int, other.d as int);
        }
        let n: i128 = self.n as i128 * other.d as i128 - other.n as i128 * self.d as i128;
        let d: i128 = self.d as i128 * other.d as i128;
        mk_checked(n, d)
    }

    pub fn checked_mul(self, other: Rat) -> (r: Option<Rat>)
        requires
            self.wf(),
            other.wf(),
        ensures
            r == spec_mul(self, other),
            r is Some ==> r->0.wf(),
    {
        proof {
            lemma_i64_prod_bounds(self.n as int, other.n as int);
            lemma_prod_bound_pos(self.d as int, other.d as int);
            lemma_den_prod_pos(self.d as int, other.d as int);
        }
        let n: i128 = self.n as i128 * other.n as i128;
        let d: i128 = self.d as i128 * other.d as i128;
        mk_checked(n, d)
    }

    pub fn checked_div(self, other: Rat) -> (r: Option<Rat>)
        requires
            self.wf(),
            other.wf(),
        ensures
            r == spec_div(self, other),
            r is Some ==> r->0.wf(),
    {
        if other.n == 0 {
            None
        } else {
            proof {
                lemma_prod_bound_pos(self.n as int, other.d as int);
                lemma_i64_prod_bounds(self.d as int, other.n as int);
                lemma_prod_sign(self.d as int, other.n as int);
            }
            let n: i128 = self.n as i128 * other.d as i128;
            let d: i128 = self.d as i128 * other.n as i128;
            if d < 0 {
                mk_checked(-n, -d)
            } else {
                mk_checked(n, d)
            }
        }
    }

    /// The exact integer value of the rational, when it has one.
    pub fn try_int(&self) -> (r: Option<i64>)
        requires
            self.wf(),
        ensures
            match r {
                Some(k) => self.is_int() && k == self.int_val(),
                None => !self.is_int(),
            },
    {
        if self.n >= 0 {
            let nn: u64 = self.n as u64;
            let dd: u64 = self.d as u64;
            if nn % dd == 0 {
                Some((nn / dd) as i64)
            } else {
                None
            }
        } else {
            let nn: u64 = (-(self.n as i128)) as u64;
            let dd: u64 = self.d as u64;
            if nn % dd == 0 {
                let q: u64 = nn / dd;
                proof {
                    lemma_neg_exact_div(self.n as int, self.d as int, q as int);
                }
                Some((-(q as i128)) as i64)
            } else {
                proof {
                    lemma_neg_inexact_div(self.n as int, self.d as int);
                }
                None
            }
        }
    }

    /// `self^k` for a natural exponent, when the result stays exact.
    pub fn checked_pow(self, k: u32) -> (r: Option<Rat>)
        requires
            self.wf(),
        ensures
            r == spec_pow(self, k as nat),
            r is Some ==> r->0.wf(),
    {
        let mut acc: Rat = Rat { n: 1, d: 1 };
        let mut i: u32 = 0;
        loop
            invariant
                0 <= i <= k,
                self.wf(),
                acc.wf(),
                Some(acc) == spec_pow(self, i as nat),
            decreases k - i,
        {
            if i == k {
                return Some(acc);
            }
            match acc.checked_mul(self) {
                Some(next) => {
                    acc = next;
                    i = i + 1;
                    proof {
                        lemma_pow_unfold(self, i as nat);
                    }
                }
                None => {
                    proof {
                        lemma_pow_unfold(self, (i + 1) as nat);
                        lemma_pow_none(self, (i + 1) as nat, k as nat);
                    }
                    return None;
                }
            }
        }
    }
}

/// Exact division of a negated value: if `|n| = q * d` then `n` divides
/// evenly by `d` with quotient `-q`.
proof fn lemma_neg_exact_div(n: int, d: int, q: int)
    by (nonlinear_arith)
    requires
        n < 0,
        d >= 1,
        (-n) % d == 0,
        q == (-n) / d,
    ensures
        n % d == 0,
        n / d == -q,
{
}

/// If `|n|` does not divide evenly by `d`, neither does `n`.
proof fn lemma_neg_inexact_div(n: int, d: int)
    requires
        n < 0,
        d >= 1,
        (-n) % d != 0,
    ensures
        n % d != 0,
{
    if n % d == 0 {
        vstd::arithmetic::div_mod::lemma_fundamental_div_mod(n, d);
        let q0 = n / d;
        assert(-n == (-q0) * d) by (nonlinear_arith)
            requires
                n == d * q0 + 0,
        ;
        vstd::arithmetic::div_mod::lemma_mod_multiples_basic(-q0, d);
    }
}

/// A product of two `i64` values stays inside `i128`.
proof fn lemma_i64_prod_bounds(a: int, b: int)
    by (nonlinear_arith)
    requires
        i64::MIN <= a <= i64::MAX,
        i64::MIN <= b <= i64::MAX,
    ensures
        -170141183460469231731687303715884105727 <= a * b,
        a * b <= 170141183460469231731687303715884105727,
{
}

/// A product of an `i64` value and a positive `i64` value is small enough
/// that a sum of two such products still fits `i128`.
proof fn lemma_prod_bound_pos(a: int, b: int)
    by (nonlinear_arith)
    requires
        i64::MIN <= a <= i64::MAX,
        1 <= b <= i64::MAX,
    ensures
        -85070591730234615856620279821087277056 <= a * b,
        a * b <= 85070591730234615856620279821087277056,
{
}

/// A product of two positive values is positive.
proof fn lemma_den_prod_pos(a: int, b: int)
    by (nonlinear_arith)
    requires
        1 <= a,
        1 <= b,
    ensures
        1 <= a * b,
{
}

/// A product of a positive value and a nonzero value is nonzero, and
/// takes the sign of the second factor.
proof fn lemma_prod_sign(a: int, b: int)
    by (nonlinear_arith)
    requires
        1 <= a,
        b != 0,
    ensures
        b > 0 ==> a * b >= 1,
        b < 0 ==> a * b <= -1,
{
}

proof fn lemma_pow_unfold(a: Rat, k: nat)
    requires
        k >= 1,
    ensures
        spec_pow(a, k) == (match spec_pow(a, (k - 1) as nat) {
            Some(p) => spec_mul(p, a),
            None => None,
        }),
{
}

/// Once a power is unrepresentable, all larger powers are.
proof fn lemma_pow_none(a: Rat, i: nat, k: nat)
    requires
        i <= k,
        spec_pow(a, i) is None,
    ensures
        spec_pow(a, k) is None,
    decreases k - i,
{
    if i < k {
        lemma_pow_none(a, i, (k - 1) as nat);
    }
}

fn mk_checked(n: i128, d: i128) -> (r: Option<Rat>)
    requires
        1 <= d,
    ensures
        r == spec_mk(n as int, d as int),
        r is Some ==> r->0.wf(),
{
    if n >= i64::MIN as i128 && n <= i64::MAX as i128 && d <= i64::MAX as i128 {
        Some(Rat { n: n as i64, d: d as i64 })
    } else {
        None
    }
}

} // verus!
