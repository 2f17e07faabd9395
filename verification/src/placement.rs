//! Where the next cherry may go: candidates from random draws, and the
//! fallback for a crowded board.

use std::collections::VecDeque;
use vstd::prelude::*;
use crate::geometry::Vector2D;

verus! {

/// The absolute value.
pub open spec fn magnitude(r: int) -> int {
    if r < 0 {
        -r
    } else {
        r
    }
}

/// The cell that a pair of raw draws stands for: each draw is made
/// non-negative and reduced into the board.
pub open spec fn candidate_for(rx: i16, ry: i16, bounds: Vector2D) -> Vector2D {
    Vector2D {
        x: (magnitude(rx as int) % (bounds.x as int)) as i16,
        y: (magnitude(ry as int) % (bounds.y as int)) as i16,
    }
}

/// The cell is on the board and no segment lies on it.
pub open spec fn is_free(cell: Vector2D, bounds: Vector2D, segments: Seq<Vector2D>) -> bool {
    cell.in_bounds(bounds) && !segments.contains(cell)
}

/// Every cell of the board is taken by a segment.
pub open spec fn board_full(bounds: Vector2D, segments: Seq<Vector2D>) -> bool {
    forall|cell: Vector2D| #[trigger] cell.in_bounds(bounds) ==> segments.contains(cell)
}

/// Raster order: `first` is in a row above `second`, or to its left in the
/// same row.
pub open spec fn comes_before(first: Vector2D, second: Vector2D) -> bool {
    first.y < second.y || (first.y == second.y && first.x < second.x)
}

/// Draws a 16-bit integer with `rand::random`, which takes it from the
/// thread's generator. Nothing is claimed of the value. The call panics
/// where the operating system's source of randomness fails the generator:
/// when it is seeded at its first use in a thread, when it reseeds itself
/// after some output or a fork, or when its fork handler cannot be
/// registered.
#[verifier::external_body]
pub(crate) fn random_i16() -> i16 {
    rand::random::<i16>()
}

/// Whether a segment lies on `cell`.
pub fn occupies(segments: &VecDeque<Vector2D>, cell: Vector2D) -> (taken: bool)
    ensures
        taken == segments@.contains(cell),
{
    let n: usize = segments.len();
    let mut i: usize = 0;
    while i < n
        invariant
            i <= n,
            n == segments@.len(),
            forall|k: int| 0 <= k < i ==> segments@[k] != cell,
        decreases n - i,
    {
        let segment: Vector2D = segments[i];
        if segment.x == cell.x && segment.y == cell.y {
            assert(segments@[i as int] == cell);
            return true;
        }
        i += 1;
    }
    false
}

/// Turns a pair of raw draws into a cell of the board.
pub fn cherry_candidate(rx: i16, ry: i16, bounds: &Vector2D) -> (cell: Vector2D)
    requires
        bounds.is_positive(),
    ensures
        cell == candidate_for(rx, ry, *bounds),
        cell.in_bounds(*bounds),
{
    Vector2D { x: reduce_draw(rx, bounds.x), y: reduce_draw(ry, bounds.y) }
}

fn reduce_draw(r: i16, bound: i16) -> (c: i16)
    requires
        bound > 0,
    ensures
        c == magnitude(r as int) % (bound as int),
        0 <= c < bound,
{
    let wide: i32 = r as i32;
    let size: i32 = if wide < 0 {
        -wide
    } else {
        wide
    };
    (size % (bound as i32)) as i16
}

/// Decides on one pair of draws: the candidate they stand for is taken
/// where it is free of the body, and nothing is taken where a segment lies
/// on it, so that the placement draws again.
pub fn settle_draws(rx: i16, ry: i16, bounds: &Vector2D, tail: &VecDeque<Vector2D>) -> (placed:
    Option<Vector2D>)
    requires
        bounds.is_positive(),
    ensures
        placed == (if tail@.contains(candidate_for(rx, ry, *bounds)) {
            None
        } else {
            Some(candidate_for(rx, ry, *bounds))
        }),
        placed matches Some(cell) ==> is_free(cell, *bounds, tail@),
{
    let candidate = cherry_candidate(rx, ry, bounds);
    if occupies(tail, candidate) {
        None
    } else {
        Some(candidate)
    }
}

/// The free cell that comes first in raster order, if the board has one.
pub fn first_free_cell(bounds: &Vector2D, segments: &VecDeque<Vector2D>) -> (found: Option<
    Vector2D,
>)
    requires
        bounds.is_positive(),
    ensures
        match found {
            Some(cell) => {
                &&& is_free(cell, *bounds, segments@)
                &&& forall|other: Vector2D|
                    #[trigger] other.in_bounds(*bounds) && comes_before(other, cell)
                        ==> segments@.contains(other)
            },
            None => board_full(*bounds, segments@),
        },
{
    let mut y: i16 = 0;
    while y < bounds.y
        invariant
            bounds.is_positive(),
            0 <= y <= bounds.y,
            forall|other: Vector2D|
                #[trigger] other.in_bounds(*bounds) && other.y < y ==> segments@.contains(other),
        decreases bounds.y - y,
    {
        let mut x: i16 = 0;
        while x < bounds.x
            invariant
                bounds.is_positive(),
                0 <= y < bounds.y,
                0 <= x <= bounds.x,
                forall|other: Vector2D|
                    #[trigger] other.in_bounds(*bounds) && comes_before(other, Vector2D { x, y })
                        ==> segments@.contains(other),
            decreases bounds.x - x,
        {
            let cell = Vector2D::new(x, y);
            if !occupies(segments, cell) {
                return Some(cell);
            }
            x += 1;
        }
        y += 1;
    }
    None
}

} // verus!
