//! The symbolic function algebra.
//!
//! An expression over the complex variable is an immutable tree.  Every
//! construction goes through smart constructors that fold constant
//! subtrees and apply the unit laws of the operators, so differentiation
//! stays tractable.  Each constructor's contract is its exact folding
//! rule; the algebraic identities (adding zero, multiplying by one, and
//! the like) are stated and proved as laws below.

use vstd::prelude::*;

use crate::rat;
use crate::rat::Rat;

verus! {

/// A symbolic function of one complex variable.
#[derive(Debug)]
pub enum Func {
    /// The variable `x`.
    Arg,
    /// A real constant.
    Num(Rat),
    /// The imaginary unit.
    Im,
    Add(Box<Func>, Box<Func>),
    Sub(Box<Func>, Box<Func>),
    Mul(Box<Func>, Box<Func>),
    Div(Box<Func>, Box<Func>),
    /// A power with an arbitrary real exponent.
    PowC(Box<Func>, Rat),
    /// A power with an integer exponent.
    PowI(Box<Func>, i32),
    Sqrt(Box<Func>),
    Exp(Box<Func>),
    Ln(Box<Func>),
    Sin(Box<Func>),
    Cos(Box<Func>),
    Tan(Box<Func>),
}

/// Constant folds are attempted only up to this exponent.
pub const MAX_FOLD_POW: i64 = 64;

impl Func {
    /// Every rational constant in the tree has a positive denominator.
    pub open spec fn wf(self) -> bool
        decreases self,
    {
        match self {
            Func::Arg => true,
            Func::Num(a) => a.wf(),
            Func::Im => true,
            Func::Add(a, b) => a.wf() && b.wf(),
            Func::Sub(a, b) => a.wf() && b.wf(),
            Func::Mul(a, b) => a.wf() && b.wf(),
            Func::Div(a, b) => a.wf() && b.wf(),
            Func::PowC(a, r) => a.wf() && r.wf(),
            Func::PowI(a, _) => a.wf(),
            Func::Sqrt(a) => a.wf(),
            Func::Exp(a) => a.wf(),
            Func::Ln(a) => a.wf(),
            Func::Sin(a) => a.wf(),
            Func::Cos(a) => a.wf(),
            Func::Tan(a) => a.wf(),
        }
    }

    /// The folding rule of `+`: constant operands fold when the sum is
    /// representable, a zero operand vanishes, anything else builds a node.
    pub open spec fn spec_add(self, o: Func) -> Func {
        match (self, o) {
            (Func::Num(a), Func::Num(b)) => match rat::spec_add(a, b) {
                Some(c) => Func::Num(c),
                None => if a.is_zero() {
                    o
                } else if b.is_zero() {
                    self
                } else {
                    Func::Add(Box::new(self), Box::new(o))
                },
            },
            (Func::Num(a), _) => if a.is_zero() {
                o
            } else {
                Func::Add(Box::new(self), Box::new(o))
            },
            (_, Func::Num(b)) => if b.is_zero() {
                self
            } else {
                Func::Add(Box::new(self), Box::new(o))
            },
            _ => Func::Add(Box::new(self), Box::new(o)),
        }
    }

    /// The folding rule of `-`: constants fold, a zero right operand
    /// vanishes.
    pub open spec fn spec_sub(self, o: Func) -> Func {
        match (self, o) {
            (Func::Num(a), Func::Num(b)) => match rat::spec_sub(a, b) {
                Some(c) => Func::Num(c),
                None => Func::Sub(Box::new(self), Box::new(o)),
            },
            (_, Func::Num(b)) => if b.is_zero() {
                self
            } else {
                Func::Sub(Box::new(self), Box::new(o))
            },
            _ => Func::Sub(Box::new(self), Box::new(o)),
        }
    }

    /// The folding rule of `*`: constants fold, a zero operand collapses
    /// the product to zero, a unit operand vanishes.
    pub open spec fn spec_mul(self, o: Func) -> Func {
        match (self, o) {
            (Func::Num(a), Func::Num(b)) => match rat::spec_mul(a, b) {
                Some(c) => Func::Num(c),
                None => if a.is_zero() || b.is_zero() {
                    Func::Num(Rat { n: 0, d: 1 })
                } else if a.is_one() {
                    o
                } else if b.is_one() {
                    self
                } else {
                    Func::Mul(Box::new(self), Box::new(o))
                },
            },
            (Func::Num(a), _) => if a.is_zero() {
                Func::Num(Rat { n: 0, d: 1 })
            } else if a.is_one() {
                o
            } else {
                Func::Mul(Box::new(self), Box::new(o))
            },
            (_, Func::Num(b)) => if b.is_zero() {
                Func::Num(Rat { n: 0, d: 1 })
            } else if b.is_one() {
                self
            } else {
                Func::Mul(Box::new(self), Box::new(o))
            },
            _ => Func::Mul(Box::new(self), Box::new(o)),
        }
    }

    /// The folding rule of `/`: nonzero constants fold, a zero numerator
    /// collapses to zero, a unit denominator vanishes.  A constant zero
    /// denominator stays a symbolic quotient.
    pub open spec fn spec_quot(self, o: Func) -> Func {
        match (self, o) {
            (Func::Num(a), Func::Num(b)) => match rat::spec_div(a, b) {
                Some(c) => Func::Num(c),
                None => Func::Div(Box::new(self), Box::new(o)),
            },
            (Func::Num(a), _) => if a.is_zero() {
                Func::Num(Rat { n: 0, d: 1 })
            } else {
                Func::Div(Box::new(self), Box::new(o))
            },
            (_, Func::Num(b)) => if b.is_one() {
                self
            } else {
                Func::Div(Box::new(self), Box::new(o))
            },
            _ => Func::Div(Box::new(self), Box::new(o)),
        }
    }

    /// The folding rule of an integer power: exponent zero is the constant
    /// one, exponent one is the base itself.
    pub open spec fn spec_powi(self, n: i32) -> Func {
        if n == 0 {
            Func::Num(Rat { n: 1, d: 1 })
        } else if n == 1 {
            self
        } else {
            Func::PowI(Box::new(self), n)
        }
    }

    /// The folding rule of a real power: a constant base with a small
    /// exact natural exponent folds; exponent zero, one and one half
    /// collapse; an integer-valued exponent inside `i32` becomes an
    /// integer power.
    pub open spec fn spec_powc(self, r: Rat) -> Func {
        if (self matches Func::Num(a) && r.is_int() && 0 <= r.int_val() <= MAX_FOLD_POW
            && rat::spec_pow(a, r.int_val() as nat) is Some) {
            match self {
                Func::Num(a) => Func::Num(rat::spec_pow(a, r.int_val() as nat)->0),
                _ => Func::Arg,
            }
        } else if r.is_zero() {
            Func::Num(Rat { n: 1, d: 1 })
        } else if r.is_one() {
            self
        } else if r.is_half() {
            Func::Sqrt(Box::new(self))
        } else if r.is_int() && i32::MIN < r.int_val() && r.int_val() < i32::MAX {
            self.spec_powi(r.int_val() as i32)
        } else {
            Func::PowC(Box::new(self), r)
        }
    }

    /// Adds two expressions through the folding rule of `+`.
    pub fn add(self, other: Func) -> (r: Func)
        requires
            self.wf(),
            other.wf(),
        ensures
            r == self.spec_add(other),
            r.wf(),
    {
        let fold: Option<Rat> = match (&self, &other) {
            (Func::Num(a), Func::Num(b)) => a.checked_add(*b),
            _ => None,
        };
        match fold {
            Some(c) => Func::Num(c),
            None => {
                if self.is_num_zero() {
                    other
                } else if other.is_num_zero() {
                    self
                } else {
                    Func::Add(Box::new(self), Box::new(other))
                }
            }
        }
    }

    /// Subtracts two expressions through the folding rule of `-`.
    pub fn sub(self, other: Func) -> (r: Func)
        requires
            self.wf(),
            other.wf(),
        ensures
            r == self.spec_sub(other),
            r.wf(),
    {
        let fold: Option<Rat> = match (&self, &other) {
            (Func::Num(a), Func::Num(b)) => a.checked_sub(*b),
            _ => None,
        };
        match fold {
            Some(c) => Func::Num(c),
            None => {
                if !matches!(&self, Func::Num(_)) && other.is_num_zero() {
                    self
                } else {
                    Func::Sub(Box::new(self), Box::new(other))
                }
            }
        }
    }

    /// Multiplies two expressions through the folding rule of `*`.
    pub fn mul(self, other: Func) -> (r: Func)
        requires
            self.wf(),
            other.wf(),
        ensures
            r == self.spec_mul(other),
            r.wf(),
    {
        let fold: Option<Rat> = match (&self, &other) {
            (Func::Num(a), Func::Num(b)) => a.checked_mul(*b),
            _ => None,
        };
        match fold {
            Some(c) => Func::Num(c),
            None => {
                if self.is_num_zero() || other.is_num_zero() {
                    Func::Num(Rat { n: 0, d: 1 })
                } else if self.is_num_one() {
                    other
                } else if other.is_num_one() {
                    self
                } else {
                    Func::Mul(Box::new(self), Box::new(other))
                }
            }
        }
    }

    /// Divides two expressions through the folding rule of `/`.
    pub fn div(self, other: Func) -> (r: Func)
        requires
            self.wf(),
            other.wf(),
        ensures
            r == self.spec_quot(other),
            r.wf(),
    {
        let fold: Option<Rat> = match (&self, &other) {
            (Func::Num(a), Func::Num(b)) => a.checked_div(*b),
            _ => None,
        };
        match fold {
            Some(c) => Func::Num(c),
            None => {
                let rhs_num = matches!(&other, Func::Num(_));
                if !rhs_num && self.is_num_zero() {
                    Func::Num(Rat { n: 0, d: 1 })
                } else if rhs_num && !matches!(&self, Func::Num(_)) && other.is_num_one() {
                    self
                } else {
                    Func::Div(Box::new(self), Box::new(other))
                }
            }
        }
    }

    /// Raises an expression to an integer power through the folding rule.
    pub fn powi(self, n: i32) -> (r: Func)
        requires
            self.wf(),
        ensures
            r == self.spec_powi(n),
            r.wf(),
    {
        if n == 0 {
            Func::Num(Rat { n: 1, d: 1 })
        } else if n == 1 {
            self
        } else {
            Func::PowI(Box::new(self), n)
        }
    }

    /// Raises an expression to a real power through the folding rule.
    pub fn powc(self, r: Rat) -> (res: Func)
        requires
            self.wf(),
            r.wf(),
        ensures
            res == self.spec_powc(r),
            res.wf(),
    {
        let k_opt = r.try_int();
        if let Func::Num(a) = &self {
            if let Some(k) = k_opt {
                if 0 <= k && k <= MAX_FOLD_POW {
                    if let Some(c) = a.checked_pow(k as u32) {
                        return Func::Num(c);
                    }
                }
            }
        }
        if r.eq_zero() {
            return Func::Num(Rat { n: 1, d: 1 });
        }
        if r.eq_one() {
            return self;
        }
        if r.eq_half() {
            return Func::Sqrt(Box::new(self));
        }
        if let Some(k) = k_opt {
            if (i32::MIN as i64) < k && k < (i32::MAX as i64) {
                return self.powi(k as i32);
            }
        }
        Func::PowC(Box::new(self), r)
    }

    /// Wraps an expression in a square root.
    pub fn sqrt(self) -> (r: Func)
        ensures
            r == Func::Sqrt(Box::new(self)),
    {
        Func::Sqrt(Box::new(self))
    }

    /// Wraps an expression in the exponential function.
    pub fn exp(self) -> (r: Func)
        ensures
            r == Func::Exp(Box::new(self)),
    {
        Func::Exp(Box::new(self))
    }

    /// Wraps an expression in the natural logarithm.
    pub fn ln(self) -> (r: Func)
        ensures
            r == Func::Ln(Box::new(self)),
    {
        Func::Ln(Box::new(self))
    }

    /// Wraps an expression in the sine.
    pub fn sin(self) -> (r: Func)
        ensures
            r == Func::Sin(Box::new(self)),
    {
        Func::Sin(Box::new(self))
    }

    /// Wraps an expression in the cosine.
    pub fn cos(self) -> (r: Func)
        ensures
            r == Func::Cos(Box::new(self)),
    {
        Func::Cos(Box::new(self))
    }

    /// Wraps an expression in the tangent.
    pub fn tan(self) -> (r: Func)
        ensures
            r == Func::Tan(Box::new(self)),
    {
        Func::Tan(Box::new(self))
    }

    /// A deep copy of the tree.
    pub fn duplicate(&self) -> (r: Func)
        ensures
            r == *self,
        decreases *self,
    {
        match self {
            Func::Arg => Func::Arg,
            Func::Num(a) => Func::Num(*a),
            Func::Im => Func::Im,
            Func::Add(a, b) => Func::Add(Box::new(a.duplicate()), Box::new(b.duplicate())),
            Func::Sub(a, b) => Func::Sub(Box::new(a.duplicate()), Box::new(b.duplicate())),
            Func::Mul(a, b) => Func::Mul(Box::new(a.duplicate()), Box::new(b.duplicate())),
            Func::Div(a, b) => Func::Div(Box::new(a.duplicate()), Box::new(b.duplicate())),
            Func::PowC(a, r) => Func::PowC(Box::new(a.duplicate()), *r),
            Func::PowI(a, n) => Func::PowI(Box::new(a.duplicate()), *n),
            Func::Sqrt(a) => Func::Sqrt(Box::new(a.duplicate())),
            Func::Exp(a) => Func::Exp(Box::new(a.duplicate())),
            Func::Ln(a) => Func::Ln(Box::new(a.duplicate())),
            Func::Sin(a) => Func::Sin(Box::new(a.duplicate())),
            Func::Cos(a) => Func::Cos(Box::new(a.duplicate())),
            Func::Tan(a) => Func::Tan(Box::new(a.duplicate())),
        }
    }

    /// The syntactic derivative: a case split over the node kind using
    /// the standard rules, every intermediate result flowing back
    /// through the smart constructors.
    pub open spec fn spec_diff(self) -> Func
        decreases self,
    {
        match self {
            Func::Arg => Func::Num(Rat { n: 1, d: 1 }),
            Func::Num(_) => Func::Num(Rat { n: 0, d: 1 }),
            Func::Im => Func::Num(Rat { n: 0, d: 1 }),
            Func::Add(a, b) => a.spec_diff().spec_add(b.spec_diff()),
            Func::Sub(a, b) => a.spec_diff().spec_sub(b.spec_diff()),
            Func::Mul(a, b) => (a.spec_mul(b.spec_diff())).spec_add(a.spec_diff().spec_mul(*b)),
            Func::Div(a, b) => (a.spec_diff().spec_mul(*b)).spec_sub(
                a.spec_mul(b.spec_diff()),
            ).spec_quot(b.spec_powi(2)),
            Func::PowI(a, n) => if n != i32::MIN {
                a.spec_diff().spec_mul(a.spec_powi((n - 1) as i32)).spec_mul(
                    Func::Num(Rat { n: n as i64, d: 1 }),
                )
            } else {
                a.spec_diff().spec_mul(Func::PowI(Box::new(*a), n)).spec_mul(
                    Func::Num(Rat { n: n as i64, d: 1 }),
                ).spec_quot(*a)
            },
            Func::PowC(a, r) => match rat::spec_sub(r, Rat { n: 1, d: 1 }) {
                Some(r1) => a.spec_diff().spec_mul(a.spec_powc(r1)).spec_mul(Func::Num(r)),
                None => a.spec_diff().spec_mul(Func::PowC(Box::new(*a), r)).spec_mul(
                    Func::Num(r),
                ).spec_quot(*a),
            },
            Func::Sqrt(a) => a.spec_diff().spec_quot(
                Func::Sqrt(Box::new(*a)).spec_mul(Func::Num(Rat { n: 2, d: 1 })),
            ),
            Func::Exp(a) => a.spec_diff().spec_mul(Func::Exp(Box::new(*a))),
            Func::Ln(a) => a.spec_diff().spec_quot(*a),
            Func::Sin(a) => a.spec_diff().spec_mul(Func::Cos(Box::new(*a))),
            Func::Cos(a) => Func::Num(Rat { n: 0, d: 1 }).spec_sub(
                a.spec_diff().spec_mul(Func::Sin(Box::new(*a))),
            ),
            Func::Tan(a) => a.spec_diff().spec_quot(
                Func::Cos(Box::new(*a)).spec_powi(2),
            ),
        }
    }

    /// Differentiates the expression.  The derivative tree is itself
    /// normalized, because every intermediate result passes through the
    /// smart constructors.
    pub fn diff(self) -> (r: Func)
        requires
            self.wf(),
        ensures
            r == self.spec_diff(),
            r.wf(),
        decreases self,
    {
        match self {
            Func::Arg => Func::Num(Rat { n: 1, d: 1 }),
            Func::Num(_) => Func::Num(Rat { n: 0, d: 1 }),
            Func::Im => Func::Num(Rat { n: 0, d: 1 }),
            Func::Add(a, b) => {
                let at = *a;
                let bt = *b;
                at.diff().add(bt.diff())
            }
            Func::Sub(a, b) => {
                let at = *a;
                let bt = *b;
                at.diff().sub(bt.diff())
            }
            Func::Mul(a, b) => {
                let at = *a;
                let bt = *b;
                let ac = at.duplicate();
                let bc = bt.duplicate();
                let da = at.diff();
                let db = bt.diff();
                ac.mul(db).add(da.mul(bc))
            }
            Func::Div(a, b) => {
                let at = *a;
                let bt = *b;
                let ac = at.duplicate();
                let bc = bt.duplicate();
                let bc2 = bt.duplicate();
                let da = at.diff();
                let db = bt.diff();
                da.mul(bc).sub(ac.mul(db)).div(bc2.powi(2))
            }
            Func::PowI(a, n) => {
                let at = *a;
                let ac = at.duplicate();
                if n != i32::MIN {
                    let da = at.diff();
                    da.mul(ac.powi(n - 1)).mul(Func::Num(Rat::from_int(n as i64)))
                } else {
                    let ac2 = at.duplicate();
                    let da = at.diff();
                    da.mul(Func::PowI(Box::new(ac), n)).mul(
                        Func::Num(Rat::from_int(n as i64)),
                    ).div(ac2)
                }
            }
            Func::PowC(a, r) => {
                let at = *a;
                let ac = at.duplicate();
                match r.checked_sub(Rat { n: 1, d: 1 }) {
                    Some(r1) => {
                        let da = at.diff();
                        da.mul(ac.powc(r1)).mul(Func::Num(r))
                    }
                    None => {
                        let ac2 = at.duplicate();
                        let da = at.diff();
                        da.mul(Func::PowC(Box::new(ac), r)).mul(Func::Num(r)).div(ac2)
                    }
                }
            }
            Func::Sqrt(a) => {
                let at = *a;
                let ac = at.duplicate();
                let da = at.diff();
                da.div(ac.sqrt().mul(Func::Num(Rat::from_int(2))))
            }
            Func::Exp(a) => {
                let at = *a;
                let ac = at.duplicate();
                let da = at.diff();
                da.mul(ac.exp())
            }
            Func::Ln(a) => {
                let at = *a;
                let ac = at.duplicate();
                let da = at.diff();
                da.div(ac)
            }
            Func::Sin(a) => {
                let at = *a;
                let ac = at.duplicate();
                let da = at.diff();
                da.mul(ac.cos())
            }
            Func::Cos(a) => {
                let at = *a;
                let ac = at.duplicate();
                let da = at.diff();
                Func::Num(Rat::from_int(0)).sub(da.mul(ac.sin()))
            }
            Func::Tan(a) => {
                let at = *a;
                let ac = at.duplicate();
                let da = at.diff();
                da.div(ac.cos().powi(2))
            }
        }
    }

    /// Law: adding the constant zero to any expression gives the
    /// expression back unchanged.
    pub proof fn law_add_zero(self)
        requires
            self.wf(),
        ensures
            self.spec_add(Func::Num(Rat { n: 0, d: 1 })) == self,
            Func::Num(Rat { n: 0, d: 1 }).spec_add(self) == self,
    {
    }

    /// Law: multiplying any expression by the constant zero gives the
    /// constant zero.
    pub proof fn law_mul_zero(self)
        requires
            self.wf(),
        ensures
            Func::Num(Rat { n: 0, d: 1 }).spec_mul(self) matches Func::Num(c) && c.is_zero(),
            self.spec_mul(Func::Num(Rat { n: 0, d: 1 })) matches Func::Num(c) && c.is_zero(),
    {
    }

    /// Law: multiplying any expression by the constant one gives the
    /// expression back unchanged.
    pub proof fn law_mul_one(self)
        requires
            self.wf(),
        ensures
            self.spec_mul(Func::Num(Rat { n: 1, d: 1 })) == self,
            Func::Num(Rat { n: 1, d: 1 }).spec_mul(self) == self,
    {
    }

    /// Law: dividing any expression by the constant one gives the
    /// expression back unchanged.
    pub proof fn law_div_one(self)
        requires
            self.wf(),
        ensures
            self.spec_quot(Func::Num(Rat { n: 1, d: 1 })) == self,
    {
    }

    /// Law: raising any expression to the power zero gives the constant
    /// one.
    pub proof fn law_pow_zero(self)
        requires
            self.wf(),
        ensures
            self.spec_powc(Rat { n: 0, d: 1 }) == Func::Num(Rat { n: 1, d: 1 }),
            self.spec_powi(0) == Func::Num(Rat { n: 1, d: 1 }),
    {
        match self {
            Func::Num(a) => {
                assert(rat::spec_pow(a, 0) == Some(Rat { n: 1, d: 1 }));
            }
            _ => {}
        }
    }

    /// Law: raising any expression to the power one gives the expression
    /// back unchanged.
    pub proof fn law_pow_one(self)
        requires
            self.wf(),
        ensures
            self.spec_powc(Rat { n: 1, d: 1 }) == self,
            self.spec_powi(1) == self,
    {
        match self {
            Func::Num(a) => {
                assert(rat::spec_pow(a, 0) == Some(Rat { n: 1, d: 1 }));
                assert(rat::spec_pow(a, 1) == rat::spec_mul(Rat { n: 1, d: 1 }, a));
                assert(rat::spec_mul(Rat { n: 1, d: 1 }, a) == Some(a));
            }
            _ => {}
        }
    }

    /// Whether the expression is the constant zero.
    fn is_num_zero(&self) -> (r: bool)
        ensures
            r == (self matches Func::Num(a) && a.is_zero()),
    {
        match self {
            Func::Num(a) => a.eq_zero(),
            _ => false,
        }
    }

    /// Whether the expression is the constant one.
    fn is_num_one(&self) -> (r: bool)
        requires
            self.wf(),
        ensures
            r == (self matches Func::Num(a) && a.is_one()),
    {
        match self {
            Func::Num(a) => a.eq_one(),
            _ => false,
        }
    }
}

} // verus!
