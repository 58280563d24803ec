//! Fixed-point complex points.
//!
//! A convergence endpoint of the Newton iteration is held as a pair of
//! integer coordinates in units of `1/POINT_SCALE`.  Two points are the
//! same root when their Euclidean distance is below `ROOT_PRECISION`
//! (1e-5), which is `ROOT_EPS` units.

use vstd::prelude::*;

verus! {

/// Units per 1.0 of the complex plane.
pub const POINT_SCALE: i64 = 10_000_000;

/// `ROOT_PRECISION` (1e-5) in point units.
pub const ROOT_EPS: i64 = 100;

/// A point of the complex plane in fixed-point coordinates.
#[derive(Clone, Copy, Debug, PartialEq, Eq, Structural)]
pub struct Point {
    pub re: i64,
    pub im: i64,
}

impl Point {
    /// Squared Euclidean distance between two points, in units.
    pub open spec fn dist2(self, other: Point) -> int {
        (self.re - other.re) * (self.re - other.re) + (self.im - other.im) * (self.im - other.im)
    }

    /// Whether two points are the same root: distance < `ROOT_PRECISION`.
    pub open spec fn spec_near(self, other: Point) -> bool {
        self.dist2(other) < (ROOT_EPS * ROOT_EPS) as int
    }

    /// Lexicographic order: primary key the real part, secondary the
    /// imaginary part.
    pub open spec fn spec_le(self, other: Point) -> bool {
        self.re < other.re || (self.re == other.re && self.im <= other.im)
    }

    /// Inverse lexicographic order: primary key the imaginary part,
    /// secondary the real part.
    pub open spec fn spec_le_rev(self, other: Point) -> bool {
        self.im < other.im || (self.im == other.im && self.re <= other.re)
    }

    pub fn new(re: i64, im: i64) -> (r: Point)
        ensures
            r == (Point { re, im }),
    {
        Point { re, im }
    }

    /// Whether `self` and `other` lie within `ROOT_PRECISION` of each other.
    pub fn near(&self, other: &Point) -> (r: bool)
        ensures
            r == self.spec_near(*other),
    {
        let dre: i128 = self.re as i128 - other.re as i128;
        let dim: i128 = self.im as i128 - other.im as i128;
        let eps: i128 = ROOT_EPS as i128;
        if dre >= eps || dre <= -eps || dim >= eps || dim <= -eps {
            proof {
                assert(dre * dre + dim * dim >= eps * eps) by (nonlinear_arith)
                    requires
                        eps == 100,
                        dre >= eps || dre <= -eps || dim >= eps || dim <= -eps,
                ;
            }
            false
        } else {
            proof {
                assert(0 <= dre * dre < eps * eps && 0 <= dim * dim < eps * eps)
                    by (nonlinear_arith)
                    requires
                        eps == 100,
                        -eps < dre < eps,
                        -eps < dim < eps,
                ;
            }
            dre * dre + dim * dim < eps * eps
        }
    }

    /// Decides `spec_le`, the order of the registry.
    pub fn le(&self, other: &Point) -> (r: bool)
        ensures
            r == self.spec_le(*other),
    {
        self.re < other.re || (self.re == other.re && self.im <= other.im)
    }

    /// Decides `spec_le_rev`.
    pub fn le_rev(&self, other: &Point) -> (r: bool)
        ensures
            r == self.spec_le_rev(*other),
    {
        self.im < other.im || (self.im == other.im && self.re <= other.re)
    }
}

} // verus!
