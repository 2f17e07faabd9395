//! The text form of a frame: a header with the head's coordinates and the
//! board as a framed grid of glyphs.

use vstd::prelude::*;
use vstd::string::*;
use crate::geometry::Vector2D;
use crate::queue::{tile_for, RenderQueue};
use crate::tile::{board_fits, cell_weight, lemma_weight_range, QueuedTile, Tile};

verus! {

/// The character of a decimal digit.
pub open spec fn digit_char(d: int) -> char {
    if d == 0 {
        '0'
    } else if d == 1 {
        '1'
    } else if d == 2 {
        '2'
    } else if d == 3 {
        '3'
    } else if d == 4 {
        '4'
    } else if d == 5 {
        '5'
    } else if d == 6 {
        '6'
    } else if d == 7 {
        '7'
    } else if d == 8 {
        '8'
    } else {
        '9'
    }
}

/// The decimal numeral of a natural number, without leading zeros.
pub open spec fn decimal_text(n: nat) -> Seq<char>
    decreases n,
{
    if n < 10 {
        seq![digit_char(n as int)]
    } else {
        decimal_text(n / 10).push(digit_char((n % 10) as int))
    }
}

/// The decimal numeral of an integer, with a minus sign where it is negative.
pub open spec fn signed_text(n: int) -> Seq<char> {
    if n < 0 {
        seq!['-'] + decimal_text((-n) as nat)
    } else {
        decimal_text(n as nat)
    }
}

/// A vector written out with its field names.
pub open spec fn vector_text(v: Vector2D) -> Seq<char> {
    "Vector2D { x: "@ + signed_text(v.x as int) + ", y: "@ + signed_text(v.y as int) + " }"@
}

/// The diagnostic header of a frame: the head's coordinates, then two blank
/// lines.
pub open spec fn header_text(position: Vector2D) -> Seq<char> {
    "pos: "@ + vector_text(position) + "\n\n\n"@
}

/// The top or bottom border of a board `size` cells wide.
pub open spec fn wall_text(size: int) -> Seq<char> {
    seq!['+'] + Seq::new(size as nat, |i: int| '-') + seq!['+']
}

/// The first `n` cells of row `y`.
pub open spec fn cells_text(n: int, y: int, picture: spec_fn(int, int) -> Tile) -> Seq<char> {
    Seq::new(n as nat, |x: int| picture(x, y).glyph())
}

/// Row `y` with its side borders and line end.
pub open spec fn row_text(width: int, y: int, picture: spec_fn(int, int) -> Tile) -> Seq<char> {
    seq!['|'] + cells_text(width, y, picture) + seq!['|', '\n']
}

/// The first `rows` rows, top to bottom.
pub open spec fn rows_text(width: int, rows: int, picture: spec_fn(int, int) -> Tile) -> Seq<char>
    decreases rows,
{
    if rows <= 0 {
        Seq::empty()
    } else {
        rows_text(width, rows - 1, picture) + row_text(width, rows - 1, picture)
    }
}

/// The framed board: `picture(x, y)` is the tile in column `x` of row `y`.
pub open spec fn grid_text(bounds: Vector2D, picture: spec_fn(int, int) -> Tile) -> Seq<char> {
    wall_text(bounds.x as int) + seq!['\n'] + rows_text(bounds.x as int, bounds.y as int, picture)
        + wall_text(bounds.x as int)
}

/// The picture that a set of queued tiles draws on a board: each cell shows
/// the tile that `tile_for` picks for the cell's weight.
pub open spec fn queue_picture(entries: Seq<QueuedTile>, bounds: Vector2D) -> spec_fn(
    int,
    int,
) -> Tile {
    |x: int, y: int| tile_for(entries, cell_weight(Vector2D { x: x as i16, y: y as i16 }, bounds) as i16)
}

/// Two pictures that agree on every cell of the board give the same grid.
pub proof fn lemma_grid_text_agrees(
    bounds: Vector2D,
    first: spec_fn(int, int) -> Tile,
    second: spec_fn(int, int) -> Tile,
)
    requires
        bounds.x >= 0,
        forall|x: int, y: int|
            0 <= x < bounds.x && 0 <= y < bounds.y ==> #[trigger] first(x, y) == second(x, y),
    ensures
        grid_text(bounds, first) == grid_text(bounds, second),
{
    lemma_rows_text_agree(bounds, bounds.y as int, first, second);
}

proof fn lemma_rows_text_agree(
    bounds: Vector2D,
    rows: int,
    first: spec_fn(int, int) -> Tile,
    second: spec_fn(int, int) -> Tile,
)
    requires
        bounds.x >= 0,
        rows <= bounds.y,
        forall|x: int, y: int|
            0 <= x < bounds.x && 0 <= y < bounds.y ==> #[trigger] first(x, y) == second(x, y),
    ensures
        rows_text(bounds.x as int, rows, first) == rows_text(bounds.x as int, rows, second),
    decreases rows,
{
    if rows > 0 {
        lemma_rows_text_agree(bounds, rows - 1, first, second);
        let upper = cells_text(bounds.x as int, rows - 1, first);
        let lower = cells_text(bounds.x as int, rows - 1, second);
        assert forall|x: int| 0 <= x < upper.len() implies #[trigger] upper[x] == lower[x] by {
            assert(first(x, rows - 1) == second(x, rows - 1));
        }
        assert(upper =~= lower);
    }
}

fn digit_str(d: u32) -> (s: &'static str)
    requires
        d < 10,
    ensures
        s@ == seq![digit_char(d as int)],
{
    proof {
        reveal_strlit("0");
        reveal_strlit("1");
        reveal_strlit("2");
        reveal_strlit("3");
        reveal_strlit("4");
        reveal_strlit("5");
        reveal_strlit("6");
        reveal_strlit("7");
        reveal_strlit("8");
        reveal_strlit("9");
    }
    let s = if d == 0 {
        "0"
    } else if d == 1 {
        "1"
    } else if d == 2 {
        "2"
    } else if d == 3 {
        "3"
    } else if d == 4 {
        "4"
    } else if d == 5 {
        "5"
    } else if d == 6 {
        "6"
    } else if d == 7 {
        "7"
    } else if d == 8 {
        "8"
    } else {
        "9"
    };
    assert(s@ =~= seq![digit_char(d as int)]);
    s
}

/// Appends the decimal numeral of `n`.
fn push_decimal(out: &mut String, n: u32)
    ensures
        final(out)@ == old(out)@ + decimal_text(n as nat),
    decreases n,
{
    if n >= 10 {
        push_decimal(out, n / 10);
    }
    out.append(digit_str(n % 10));
    assert(final(out)@ =~= old(out)@ + decimal_text(n as nat));
}

/// Appends the decimal numeral of `n`, with its sign.
fn push_signed(out: &mut String, n: i16)
    ensures
        final(out)@ == old(out)@ + signed_text(n as int),
{
    if n < 0 {
        proof {
            reveal_strlit("-");
        }
        out.append("-");
        push_decimal(out, (-(n as i32)) as u32);
        assert(final(out)@ =~= old(out)@ + signed_text(n as int));
    } else {
        push_decimal(out, n as u32);
    }
}

/// The header line of a frame, which names the head's position.
pub fn position_header(position: &Vector2D) -> (header: String)
    ensures
        header@ == header_text(*position),
{
    let mut header = String::from_str("pos: ");
    header.append("Vector2D { x: ");
    push_signed(&mut header, position.x);
    header.append(", y: ");
    push_signed(&mut header, position.y);
    header.append(" }");
    header.append("\n\n\n");
    assert(header@ =~= header_text(*position));
    header
}

/// A border line: a corner, `size` dashes, a corner.
pub fn horizontal_wall(size: i16) -> (wall: String)
    requires
        size >= 0,
    ensures
        wall@ == wall_text(size as int),
{
    proof {
        reveal_strlit("+");
        reveal_strlit("-");
    }
    let mut wall = String::from_str("+");
    let mut i: i16 = 0;
    while i < size
        invariant
            0 <= i <= size,
            wall@ == seq!['+'] + Seq::new(i as nat, |k: int| '-'),
            "-"@ == seq!['-'],
        decreases size - i,
    {
        wall.append("-");
        i += 1;
        assert(wall@ =~= seq!['+'] + Seq::new(i as nat, |k: int| '-'));
    }
    wall.append("+");
    assert(wall@ =~= wall_text(size as int));
    wall
}

/// Draws the board from a queue of tiles. The cells are visited in raster
/// order, which is the order of falling weight, so each cell's tiles are at
/// the head of the queue when the cell is reached. A cell that several tiles
/// claim shows the one of greatest precedence; a tile whose weight belongs to
/// no cell of the board is not drawn.
pub fn render_board(bounds: &Vector2D, queue: RenderQueue) -> (board: String)
    requires
        board_fits(*bounds),
        queue.wf(),
    ensures
        board@ == grid_text(*bounds, queue_picture(queue@, *bounds)),
{
    let ghost entries = queue@;
    let ghost picture = queue_picture(entries, *bounds);
    let ghost width = bounds.x as int;
    let mut queue = queue;
    let mut board = horizontal_wall(bounds.x);
    proof {
        reveal_strlit("\n");
        reveal_strlit("|");
        reveal_strlit("|\n");
    }
    board.append("\n");
    let mut y: i16 = 0;
    assert(board@ =~= wall_text(width) + seq!['\n'] + rows_text(width, 0, picture));
    while y < bounds.y
        invariant
            board_fits(*bounds),
            width == bounds.x,
            picture == queue_picture(entries, *bounds),
            0 <= y <= bounds.y,
            queue.wf(),
            board@ == wall_text(width) + seq!['\n'] + rows_text(width, y as int, picture),
            forall|e: QueuedTile|
                e.1 <= bounds.x * bounds.y - y * bounds.x ==> (#[trigger] queue@.contains(e)
                    <==> entries.contains(e)),
            "|"@ == seq!['|'],
            "|\n"@ == seq!['|', '\n'],
        decreases bounds.y - y,
    {
        let ghost above = board@;
        board.append("|");
        let mut x: i16 = 0;
        assert(board@ =~= above + seq!['|'] + cells_text(0, y as int, picture));
        while x < bounds.x
            invariant
                board_fits(*bounds),
                width == bounds.x,
                picture == queue_picture(entries, *bounds),
                0 <= y < bounds.y,
                0 <= x <= bounds.x,
                queue.wf(),
                board@ == above + seq!['|'] + cells_text(x as int, y as int, picture),
                forall|e: QueuedTile|
                    e.1 <= bounds.x * bounds.y - (x + y * bounds.x) ==> (
                    #[trigger] queue@.contains(e) <==> entries.contains(e)),
            decreases bounds.x - x,
        {
            let cell = Vector2D::new(x, y);
            proof {
                lemma_weight_range(cell, *bounds);
            }
            let weight: i16 = QueuedTile::weight(cell, *bounds);
            let ghost pending = queue@;
            let tile = queue.draw_cell(weight);
            proof {
                assert(pending.contains(QueuedTile(Tile::SnakeHead, weight)) <==> entries.contains(
                    QueuedTile(Tile::SnakeHead, weight),
                ));
                assert(pending.contains(QueuedTile(Tile::SnakeTail, weight)) <==> entries.contains(
                    QueuedTile(Tile::SnakeTail, weight),
                ));
                assert(pending.contains(QueuedTile(Tile::SnakeTailGhost, weight))
                    <==> entries.contains(QueuedTile(Tile::SnakeTailGhost, weight)));
                assert(pending.contains(QueuedTile(Tile::Cherry, weight)) <==> entries.contains(
                    QueuedTile(Tile::Cherry, weight),
                ));
                assert(tile == picture(x as int, y as int));
                assert forall|e: QueuedTile|
                    e.1 <= bounds.x * bounds.y - ((x + 1) + y * bounds.x) implies (
                #[trigger] queue@.contains(e) <==> entries.contains(e)) by {
                    assert(pending.contains(e) <==> entries.contains(e));
                }
            }
            let glyph = tile.draw();
            board.append(glyph.as_str());
            x += 1;
            assert(board@ =~= above + seq!['|'] + cells_text(x as int, y as int, picture));
        }
        board.append("|\n");
        proof {
            assert((y + 1) * bounds.x == bounds.x + y * bounds.x) by (nonlinear_arith);
            assert(board@ =~= above + row_text(width, y as int, picture));
        }
        y += 1;
    }
    let wall = horizontal_wall(bounds.x);
    board.append(wall.as_str());
    assert(board@ =~= grid_text(*bounds, picture));
    board
}

} // verus!
