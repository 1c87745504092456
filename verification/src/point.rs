//! Points of the plane, and arithmetic on them.

use vstd::prelude::*;

verus! {

/// A position, an offset or an extent on the plane of character cells.
///
/// `x` grows to the right and `y` grows downwards. The arithmetic operators
/// work on the two components independently of each other.
#[derive(Clone, Copy, PartialEq, Eq, Structural, PartialOrd, Ord, Debug)]
pub struct Point {
    pub x: i64,
    pub y: i64,
}

/// Whether `v` can be held by one component of a [`Point`].
pub open spec fn fits(v: int) -> bool {
    i64::MIN <= v <= i64::MAX
}

/// The quotient of `a` by `b`, rounded towards zero.
pub open spec fn quotient(a: int, b: int) -> int {
    if a >= 0 {
        a / b
    } else {
        -((-a) / b)
    }
}

/// Whether `a` can be divided by `b` with a quotient that fits a component.
pub open spec fn divides(a: int, b: int) -> bool {
    b != 0 && !(a == i64::MIN && b == -1)
}

/// Wherever the division can be done, its quotient fits a component.
pub proof fn lemma_quotient_fits(a: int, b: int)
    requires
        fits(a),
        fits(b),
        divides(a, b),
    ensures
        fits(quotient(a, b)),
{
    let n = if a >= 0 { a } else { -a };
    if b == 1 {
        assert(n / b == n) by (nonlinear_arith)
            requires
                b == 1,
        ;
    } else if b == -1 {
        assert(n / b == -n) by (nonlinear_arith)
            requires
                b == -1,
        ;
    } else {
        assert(-n <= 2 * (n / b) <= n) by (nonlinear_arith)
            requires
                n >= 0,
                b >= 2 || b <= -2,
        ;
    }
}

impl Point {
    /// The point at column `x` of row `y`.
    #[must_use]
    pub fn new(x: i64, y: i64) -> (p: Point)
        ensures
            p == (Point { x, y }),
    {
        Point { x, y }
    }

    /// Componentwise division that reports, rather than requires, that it
    /// can be done: `None` exactly when a component of `rhs` is zero or a
    /// quotient would leave the range of `i64`.
    pub fn checked_div(self, rhs: Point) -> (q: Option<Point>)
        ensures
            q is Some <==> ({
                &&& divides(self.x as int, rhs.x as int)
                &&& divides(self.y as int, rhs.y as int)
            }),
            q matches Some(p) ==> ({
                &&& p.x == quotient(self.x as int, rhs.x as int)
                &&& p.y == quotient(self.y as int, rhs.y as int)
            }),
    {
        if rhs.x == 0 || rhs.y == 0 {
            return None;
        }
        if (self.x == i64::MIN && rhs.x == -1) || (self.y == i64::MIN && rhs.y == -1) {
            return None;
        }
        proof {
            lemma_quotient_fits(self.x as int, rhs.x as int);
            lemma_quotient_fits(self.y as int, rhs.y as int);
        }
        Some(Point { x: self.x / rhs.x, y: self.y / rhs.y })
    }
}

impl Default for Point {
    fn default() -> (p: Point)
        ensures
            p == (Point { x: 0, y: 0 }),
    {
        Point { x: 0, y: 0 }
    }
}

/// The sum of two points, component by component. Each sum must fit in an
/// `i64`.
impl std::ops::Add for Point {
    type Output = Point;

    fn add(self, rhs: Point) -> (sum: Point)
        ensures
            sum.x == self.x + rhs.x,
            sum.y == self.y + rhs.y,
    {
        Point { x: self.x + rhs.x, y: self.y + rhs.y }
    }
}

impl vstd::std_specs::ops::AddSpecImpl for Point {
    open spec fn obeys_add_spec() -> bool {
        true
    }

    open spec fn add_req(self, rhs: Point) -> bool {
        fits(self.x + rhs.x) && fits(self.y + rhs.y)
    }

    open spec fn add_spec(self, rhs: Point) -> Point {
        Point { x: (self.x + rhs.x) as i64, y: (self.y + rhs.y) as i64 }
    }
}

/// The difference of two points, component by component. Each difference
/// must fit in an `i64`.
impl std::ops::Sub for Point {
    type Output = Point;

    fn sub(self, rhs: Point) -> (difference: Point)
        ensures
            difference.x == self.x - rhs.x,
            difference.y == self.y - rhs.y,
    {
        Point { x: self.x - rhs.x, y: self.y - rhs.y }
    }
}

impl vstd::std_specs::ops::SubSpecImpl for Point {
    open spec fn obeys_sub_spec() -> bool {
        true
    }

    open spec fn sub_req(self, rhs: Point) -> bool {
        fits(self.x - rhs.x) && fits(self.y - rhs.y)
    }

    open spec fn sub_spec(self, rhs: Point) -> Point {
        Point { x: (self.x - rhs.x) as i64, y: (self.y - rhs.y) as i64 }
    }
}

/// The product of two points, component by component. Each product must
/// fit in an `i64`.
impl std::ops::Mul for Point {
    type Output = Point;

    fn mul(self, rhs: Point) -> (product: Point)
        ensures
            product.x == self.x * rhs.x,
            product.y == self.y * rhs.y,
    {
        Point { x: self.x * rhs.x, y: self.y * rhs.y }
    }
}

impl vstd::std_specs::ops::MulSpecImpl for Point {
    open spec fn obeys_mul_spec() -> bool {
        true
    }

    open spec fn mul_req(self, rhs: Point) -> bool {
        fits(self.x * rhs.x) && fits(self.y * rhs.y)
    }

    open spec fn mul_spec(self, rhs: Point) -> Point {
        Point { x: (self.x * rhs.x) as i64, y: (self.y * rhs.y) as i64 }
    }
}

/// The quotient of two points, component by component and rounded towards
/// zero. No component of the divisor may be zero, and each quotient must fit
/// in an `i64`; [`Point::checked_div`] tests both.
impl std::ops::Div for Point {
    type Output = Point;

    fn div(self, rhs: Point) -> (q: Point)
        ensures
            q.x == quotient(self.x as int, rhs.x as int),
            q.y == quotient(self.y as int, rhs.y as int),
    {
        proof {
            lemma_quotient_fits(self.x as int, rhs.x as int);
            lemma_quotient_fits(self.y as int, rhs.y as int);
        }
        Point { x: self.x / rhs.x, y: self.y / rhs.y }
    }
}

impl vstd::std_specs::ops::DivSpecImpl for Point {
    open spec fn obeys_div_spec() -> bool {
        true
    }

    open spec fn div_req(self, rhs: Point) -> bool {
        divides(self.x as int, rhs.x as int) && divides(self.y as int, rhs.y as int)
    }

    open spec fn div_spec(self, rhs: Point) -> Point {
        Point {
            x: quotient(self.x as int, rhs.x as int) as i64,
            y: quotient(self.y as int, rhs.y as int) as i64,
        }
    }
}

} // verus!
