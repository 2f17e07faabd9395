//! What a board cell can show, and the priority key that orders the tiles of
//! a frame in raster order.

use std::cmp::Ordering;
use vstd::prelude::*;
use vstd::std_specs::cmp::PartialOrdSpecImpl;
use vstd::string::*;
use crate::geometry::Vector2D;

verus! {

/// The kind of thing drawn in a cell.
#[derive(Clone, Copy, Debug, PartialEq, Eq, Structural)]
pub enum Tile {
    SnakeHead,
    SnakeTail,
    SnakeTailGhost,
    Cherry,
    Space,
}

impl Tile {
    /// The character that stands for the tile.
    pub open spec fn glyph(self) -> char {
        match self {
            Tile::Cherry => 'c',
            Tile::SnakeHead => 'x',
            Tile::SnakeTail => 'o',
            Tile::SnakeTailGhost => '.',
            Tile::Space => ' ',
        }
    }

    /// Which tile wins a cell that several tiles claim: the head covers the
    /// body, the body its ghost, the ghost the cherry, and anything covers
    /// empty space.
    pub open spec fn precedence(self) -> int {
        match self {
            Tile::SnakeHead => 4,
            Tile::SnakeTail => 3,
            Tile::SnakeTailGhost => 2,
            Tile::Cherry => 1,
            Tile::Space => 0,
        }
    }

    /// The tile's glyph as a one-character string.
    pub fn draw(&self) -> (s: String)
        ensures
            s@ == seq![self.glyph()],
    {
        proof {
            reveal_strlit("c");
            reveal_strlit("x");
            reveal_strlit("o");
            reveal_strlit(".");
            reveal_strlit(" ");
        }
        let s = match self {
            Tile::Cherry => String::from_str("c"),
            Tile::SnakeHead => String::from_str("x"),
            Tile::SnakeTail => String::from_str("o"),
            Tile::SnakeTailGhost => String::from_str("."),
            Tile::Space => String::from_str(" "),
        };
        assert(s@ =~= seq![self.glyph()]);
        s
    }

    /// The precedence as a machine integer.
    pub fn rank(&self) -> (r: u8)
        ensures
            r == self.precedence(),
    {
        match self {
            Tile::SnakeHead => 4,
            Tile::SnakeTail => 3,
            Tile::SnakeTailGhost => 2,
            Tile::Cherry => 1,
            Tile::Space => 0,
        }
    }
}

/// The priority key of the cell `p` on a board of size `bounds`: the number of
/// cells minus the cell's raster index, so that the top-left cell has the
/// greatest weight and the bottom-right cell has weight one.
pub open spec fn cell_weight(p: Vector2D, bounds: Vector2D) -> int {
    bounds.x * bounds.y - (p.x + p.y * bounds.x)
}

/// The board is non-empty and every cell's weight fits in 16 bits.
pub open spec fn board_fits(bounds: Vector2D) -> bool {
    bounds.is_positive() && bounds.x * bounds.y <= i16::MAX
}

/// A tile waiting to be drawn, with the weight of the cell it belongs to.
#[derive(Clone, Copy, Debug, PartialEq, Eq, Structural)]
pub struct QueuedTile(pub Tile, pub i16);

impl QueuedTile {
    /// `self` is drawn no later than `other`: it has the greater weight, or
    /// the same weight and at least the same precedence.
    pub open spec fn precedes(self, other: QueuedTile) -> bool {
        self.1 > other.1 || (self.1 == other.1 && self.0.precedence() >= other.0.precedence())
    }

    /// The tile `t` queued for the cell `p` of a board of size `bounds`.
    pub fn new_within(t: Tile, p: Vector2D, bounds: Vector2D) -> (queued: QueuedTile)
        requires
            i16::MIN <= cell_weight(p, bounds) <= i16::MAX,
        ensures
            queued == QueuedTile(t, cell_weight(p, bounds) as i16),
    {
        QueuedTile(t, QueuedTile::weight(p, bounds))
    }

    /// The weight of the cell `p` on a board of size `bounds`. The products
    /// are formed in a wider type: only the result has to fit in 16 bits.
    pub fn weight(p: Vector2D, bounds: Vector2D) -> (w: i16)
        requires
            i16::MIN <= cell_weight(p, bounds) <= i16::MAX,
        ensures
            w == cell_weight(p, bounds),
    {
        let width: i64 = bounds.x as i64;
        let height: i64 = bounds.y as i64;
        let px: i64 = p.x as i64;
        let py: i64 = p.y as i64;
        assert(-0x4000_0000 <= width * height <= 0x4000_0000) by (nonlinear_arith)
            requires
                -0x8000 <= width <= 0x8000,
                -0x8000 <= height <= 0x8000,
        ;
        assert(-0x4000_0000 <= py * width <= 0x4000_0000) by (nonlinear_arith)
            requires
                -0x8000 <= width <= 0x8000,
                -0x8000 <= py <= 0x8000,
        ;
        let max: i64 = width * height;
        (max - (px + py * width)) as i16
    }

    /// Executable form of `precedes`.
    pub fn goes_before(&self, other: &QueuedTile) -> (b: bool)
        ensures
            b == self.precedes(*other),
    {
        self.1 > other.1 || (self.1 == other.1 && self.0.rank() >= other.0.rank())
    }
}

/// Queued tiles compare by weight alone: two tiles of one cell are equal in
/// this order, whatever they show. Which of them a queue hands out first is
/// a matter of `precedes`.
impl PartialOrd for QueuedTile {
    fn partial_cmp(&self, other: &QueuedTile) -> (order: Option<Ordering>) {
        if self.1 < other.1 {
            Some(Ordering::Less)
        } else if self.1 > other.1 {
            Some(Ordering::Greater)
        } else {
            Some(Ordering::Equal)
        }
    }
}

impl PartialOrdSpecImpl for QueuedTile {
    open spec fn obeys_partial_cmp_spec() -> bool {
        true
    }

    open spec fn partial_cmp_spec(&self, other: &QueuedTile) -> Option<Ordering> {
        if self.1 < other.1 {
            Some(Ordering::Less)
        } else if self.1 > other.1 {
            Some(Ordering::Greater)
        } else {
            Some(Ordering::Equal)
        }
    }
}

/// In-bounds cells have weights between one and the number of cells.
pub proof fn lemma_weight_range(p: Vector2D, bounds: Vector2D)
    requires
        bounds.is_positive(),
        p.in_bounds(bounds),
    ensures
        1 <= cell_weight(p, bounds) <= bounds.x * bounds.y,
{
    let w = bounds.x as int;
    let h = bounds.y as int;
    let x = p.x as int;
    let y = p.y as int;
    assert(y * w + w <= h * w) by (nonlinear_arith)
        requires
            0 <= y < h,
            w > 0,
    ;
    assert(0 <= y * w) by (nonlinear_arith)
        requires
            0 <= y,
            w > 0,
    ;
    assert(h * w == w * h) by (nonlinear_arith);
}

/// Distinct in-bounds cells have distinct weights.
pub proof fn lemma_weight_injective(p: Vector2D, q: Vector2D, bounds: Vector2D)
    requires
        bounds.is_positive(),
        p.in_bounds(bounds),
        q.in_bounds(bounds),
        cell_weight(p, bounds) == cell_weight(q, bounds),
    ensures
        p == q,
{
    let w = bounds.x as int;
    let px = p.x as int;
    let py = p.y as int;
    let qx = q.x as int;
    let qy = q.y as int;
    if py < qy {
        assert(py * w + w <= qy * w) by (nonlinear_arith)
            requires
                py < qy,
                w > 0,
        ;
    } else if qy < py {
        assert(qy * w + w <= py * w) by (nonlinear_arith)
            requires
                qy < py,
                w > 0,
        ;
    }
}

} // verus!
