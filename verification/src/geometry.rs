//! Integer grid vectors: positions, velocities and board dimensions.

use vstd::prelude::*;

verus! {

/// A point or displacement on the integer grid. `y` grows downwards.
#[derive(Clone, Copy, Debug, PartialEq, Eq, Structural)]
pub struct Vector2D {
    pub x: i16,
    pub y: i16,
}

/// The representative of `p` modulo `bound` that the wrap-around picks:
/// `(p + bound) mod bound`, which lies in `[0, bound)` when `bound > 0`.
pub open spec fn wrap_axis(p: int, bound: int) -> int {
    (p + bound) % bound
}

/// Wrap-around for a coordinate at most one board side away from the
/// board: a side is added below zero and taken off from `bound` on.
pub open spec fn wrap_near(p: int, bound: int) -> int {
    if p < 0 {
        p + bound
    } else if p >= bound {
        p - bound
    } else {
        p
    }
}

/// Within one board side of the board the wrap-around adds or takes off
/// one side: one step off the left edge lands on the right edge, and the
/// other way round.
pub proof fn lemma_wrap_axis_near(p: int, bound: int)
    requires
        bound > 0,
        -bound <= p < 2 * bound,
    ensures
        wrap_axis(p, bound) == wrap_near(p, bound),
{
    if p < 0 {
        assert((p + bound) % bound == p + bound) by (nonlinear_arith)
            requires
                0 <= p + bound < bound,
        ;
    } else if p >= bound {
        assert((p + bound) % bound == p - bound) by (nonlinear_arith)
            requires
                bound > 0,
                0 <= p - bound < bound,
        ;
    } else {
        assert((p + bound) % bound == p) by (nonlinear_arith)
            requires
                0 <= p < bound,
        ;
    }
}

impl Vector2D {
    /// Both components are at least one.
    pub open spec fn is_positive(self) -> bool {
        self.x > 0 && self.y > 0
    }

    /// The point lies on the board `[0, bound.x) x [0, bound.y)`.
    pub open spec fn in_bounds(self, bound: Vector2D) -> bool {
        0 <= self.x < bound.x && 0 <= self.y < bound.y
    }

    /// Component-wise sum; meaningful where both sums fit in 16 bits.
    pub open spec fn sum(self, other: Vector2D) -> Vector2D {
        Vector2D { x: (self.x + other.x) as i16, y: (self.y + other.y) as i16 }
    }

    /// Component-wise difference; meaningful where both differences fit in 16 bits.
    pub open spec fn difference(self, other: Vector2D) -> Vector2D {
        Vector2D { x: (self.x - other.x) as i16, y: (self.y - other.y) as i16 }
    }

    /// Component-wise mathematical remainder, in `[0, bound)` on each axis.
    pub open spec fn reduced(self, bound: Vector2D) -> Vector2D {
        Vector2D { x: (self.x % bound.x) as i16, y: (self.y % bound.y) as i16 }
    }

    /// Component-wise toroidal wrap-around onto the board `bound`.
    pub open spec fn wrapped(self, bound: Vector2D) -> Vector2D {
        Vector2D {
            x: wrap_axis(self.x as int, bound.x as int) as i16,
            y: wrap_axis(self.y as int, bound.y as int) as i16,
        }
    }

    pub fn new(x: i16, y: i16) -> (v: Vector2D)
        ensures
            v.x == x,
            v.y == y,
    {
        Vector2D { x, y }
    }

    /// The vector with both components equal to `value`.
    pub fn scalar(value: i16) -> (v: Vector2D)
        ensures
            v.x == value,
            v.y == value,
    {
        Vector2D { x: value, y: value }
    }

    pub fn x(&self) -> (x: i16)
        ensures
            x == self.x,
    {
        self.x
    }

    pub fn y(&self) -> (y: i16)
        ensures
            y == self.y,
    {
        self.y
    }

    /// Whether the point lies on the board `[0, bound.x) x [0, bound.y)`.
    pub fn within(&self, bound: &Vector2D) -> (inside: bool)
        ensures
            inside == self.in_bounds(*bound),
    {
        0 <= self.x && self.x < bound.x && 0 <= self.y && self.y < bound.y
    }

    /// Exact component-wise addition.
    pub fn plus(self, other: Vector2D) -> (v: Vector2D)
        requires
            i16::MIN <= self.x + other.x <= i16::MAX,
            i16::MIN <= self.y + other.y <= i16::MAX,
        ensures
            v.x == self.x + other.x,
            v.y == self.y + other.y,
            v == self.sum(other),
    {
        Vector2D { x: self.x + other.x, y: self.y + other.y }
    }

    /// Exact component-wise subtraction.
    pub fn minus(self, other: Vector2D) -> (v: Vector2D)
        requires
            i16::MIN <= self.x - other.x <= i16::MAX,
            i16::MIN <= self.y - other.y <= i16::MAX,
        ensures
            v.x == self.x - other.x,
            v.y == self.y - other.y,
            v == self.difference(other),
    {
        Vector2D { x: self.x - other.x, y: self.y - other.y }
    }

    /// Component-wise remainder by a positive bound. Unlike the machine `%`,
    /// the result is never negative.
    pub fn modulo(self, bound: Vector2D) -> (v: Vector2D)
        requires
            bound.is_positive(),
        ensures
            v.x == self.x % bound.x,
            v.y == self.y % bound.y,
            v == self.reduced(bound),
            v.in_bounds(bound),
    {
        Vector2D { x: modulo_axis(self.x as i32, bound.x), y: modulo_axis(self.y as i32, bound.y) }
    }

    /// Toroidal wrap-around: `(self + bound) mod bound` on each axis. The sum is
    /// formed in a wider type, so every position is accepted.
    pub fn wrap(self, bound: Vector2D) -> (v: Vector2D)
        requires
            bound.is_positive(),
        ensures
            v.x == wrap_axis(self.x as int, bound.x as int),
            v.y == wrap_axis(self.y as int, bound.y as int),
            v == self.wrapped(bound),
            v.in_bounds(bound),
    {
        Vector2D {
            x: modulo_axis(self.x as i32 + bound.x as i32, bound.x),
            y: modulo_axis(self.y as i32 + bound.y as i32, bound.y),
        }
    }
}

/// The mathematical remainder of `p` by `bound`, for one axis.
fn modulo_axis(p: i32, bound: i16) -> (r: i16)
    requires
        bound > 0,
    ensures
        r == (p as int) % (bound as int),
        0 <= r < bound,
{
    let remainder: Option<i32> = p.checked_rem_euclid(bound as i32);
    remainder.unwrap() as i16
}

} // verus!
