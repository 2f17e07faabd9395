use std::cmp::Ordering;
use snake_kernel::geometry::Vector2D;
use snake_kernel::tile::{QueuedTile, Tile};

#[test]
fn draw_gives_each_tile_its_glyph() {
    assert_eq!(Tile::Cherry.draw(), "c");
    assert_eq!(Tile::SnakeHead.draw(), "x");
    assert_eq!(Tile::SnakeTail.draw(), "o");
    assert_eq!(Tile::SnakeTailGhost.draw(), ".");
    assert_eq!(Tile::Space.draw(), " ");
}

#[test]
fn rank_orders_head_body_ghost_cherry_space() {
    assert_eq!(Tile::SnakeHead.rank(), 4);
    assert_eq!(Tile::SnakeTail.rank(), 3);
    assert_eq!(Tile::SnakeTailGhost.rank(), 2);
    assert_eq!(Tile::Cherry.rank(), 1);
    assert_eq!(Tile::Space.rank(), 0);
}

#[test]
fn weight_is_cell_count_minus_raster_index() {
    let board = Vector2D::new(51, 51);
    assert_eq!(QueuedTile::weight(Vector2D::new(0, 0), board), 2601);
    assert_eq!(QueuedTile::weight(Vector2D::new(1, 0), board), 2600);
    assert_eq!(QueuedTile::weight(Vector2D::new(0, 1), board), 2550);
    assert_eq!(QueuedTile::weight(Vector2D::new(25, 25), board), 2601 - (25 + 25 * 51));
    assert_eq!(QueuedTile::weight(Vector2D::new(50, 50), board), 1);
    assert_eq!(QueuedTile::weight(Vector2D::new(1, 1), Vector2D::new(3, 3)), 5);
    assert_eq!(QueuedTile::weight(Vector2D::new(2, 1), Vector2D::new(4, 2)), 2);
}

#[test]
fn weight_falls_by_one_along_the_raster() {
    let board = Vector2D::new(5, 4);
    let mut expected: i16 = 20;
    for y in 0..4 {
        for x in 0..5 {
            assert_eq!(QueuedTile::weight(Vector2D::new(x, y), board), expected);
            expected -= 1;
        }
    }
    assert_eq!(expected, 0);
}

#[test]
fn weight_covers_the_largest_board() {
    let board = Vector2D::new(i16::MAX, 1);
    assert_eq!(QueuedTile::weight(Vector2D::new(0, 0), board), i16::MAX);
    assert_eq!(QueuedTile::weight(Vector2D::new(i16::MAX - 1, 0), board), 1);
    let square = Vector2D::new(181, 181);
    assert_eq!(QueuedTile::weight(Vector2D::new(0, 0), square), 32761);
    assert_eq!(QueuedTile::weight(Vector2D::new(180, 180), square), 1);
}

#[test]
fn weight_of_a_point_off_the_board_follows_the_formula() {
    assert_eq!(QueuedTile::weight(Vector2D::new(-1, 0), Vector2D::new(3, 3)), 10);
    assert_eq!(QueuedTile::weight(Vector2D::new(0, 3), Vector2D::new(3, 3)), 0);
    assert_eq!(QueuedTile::weight(Vector2D::new(2, 4), Vector2D::new(3, 3)), -5);
}

#[test]
fn new_within_pairs_tile_and_weight() {
    let queued = QueuedTile::new_within(Tile::Cherry, Vector2D::new(2, 1), Vector2D::new(3, 3));
    assert_eq!(queued, QueuedTile(Tile::Cherry, 4));
    assert_eq!(queued.0, Tile::Cherry);
    assert_eq!(queued.1, 4);
}

#[test]
fn goes_before_compares_weight_then_precedence() {
    let head = QueuedTile(Tile::SnakeHead, 5);
    let cherry = QueuedTile(Tile::Cherry, 5);
    let early = QueuedTile(Tile::Cherry, 6);
    assert!(early.goes_before(&head));
    assert!(!head.goes_before(&early));
    assert!(head.goes_before(&cherry));
    assert!(!cherry.goes_before(&head));
    assert!(head.goes_before(&head));
}

#[test]
fn queued_tiles_compare_by_weight_alone() {
    let a = QueuedTile(Tile::Cherry, 5);
    let b = QueuedTile(Tile::SnakeHead, 5);
    let c = QueuedTile(Tile::SnakeHead, 7);
    assert_eq!(a.partial_cmp(&b), Some(Ordering::Equal));
    assert_eq!(b.partial_cmp(&a), Some(Ordering::Equal));
    assert_eq!(a.partial_cmp(&c), Some(Ordering::Less));
    assert_eq!(c.partial_cmp(&a), Some(Ordering::Greater));
    assert_eq!(b.partial_cmp(&c), Some(Ordering::Less));
    assert_eq!(a.partial_cmp(&a), Some(Ordering::Equal));
    assert!(a < c);
    assert!(c > b);
    assert!(a <= b && a >= b);
    assert!(!(a < b) && !(a > b));
    assert_ne!(a, b);
}

#[test]
fn partial_cmp_follows_the_weights() {
    let tiles = [Tile::SnakeHead, Tile::SnakeTail, Tile::SnakeTailGhost, Tile::Cherry, Tile::Space];
    let weights: [i16; 6] = [i16::MIN, -3, 0, 1, 7, i16::MAX];
    for a in tiles {
        for b in tiles {
            for wa in weights {
                for wb in weights {
                    let left = QueuedTile(a, wa);
                    let right = QueuedTile(b, wb);
                    assert_eq!(left.partial_cmp(&right), wa.partial_cmp(&wb));
                }
            }
        }
    }
}

#[test]
fn goes_before_breaks_equal_weights_by_precedence() {
    let tiles = [Tile::SnakeHead, Tile::SnakeTail, Tile::SnakeTailGhost, Tile::Cherry, Tile::Space];
    for a in tiles {
        for b in tiles {
            for (wa, wb) in [(1, 1), (1, 2), (2, 1), (-3, 7), (i16::MAX, i16::MIN)] {
                let left = QueuedTile(a, wa);
                let right = QueuedTile(b, wb);
                assert_eq!(left.goes_before(&right), wa > wb || (wa == wb && a.rank() >= b.rank()));
                if wa != wb {
                    assert_eq!(left.goes_before(&right), left > right);
                }
            }
        }
    }
}
