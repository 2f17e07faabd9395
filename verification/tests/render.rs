use snake_kernel::geometry::Vector2D;
use snake_kernel::queue::RenderQueue;
use snake_kernel::render::{horizontal_wall, position_header, render_board};
use snake_kernel::tile::{QueuedTile, Tile};

#[test]
fn horizontal_wall_frames_dashes_with_corners() {
    assert_eq!(horizontal_wall(3), "+---+");
    assert_eq!(horizontal_wall(1), "+-+");
    assert_eq!(horizontal_wall(0), "++");
    assert_eq!(horizontal_wall(51).len(), 53);
}

#[test]
fn position_header_names_the_head() {
    assert_eq!(position_header(&Vector2D::new(25, 25)), "pos: Vector2D { x: 25, y: 25 }\n\n\n");
    assert_eq!(position_header(&Vector2D::new(0, 9)), "pos: Vector2D { x: 0, y: 9 }\n\n\n");
    assert_eq!(position_header(&Vector2D::new(10, 100)), "pos: Vector2D { x: 10, y: 100 }\n\n\n");
}

#[test]
fn position_header_writes_signs_and_every_digit() {
    assert_eq!(
        position_header(&Vector2D::new(i16::MIN, i16::MAX)),
        "pos: Vector2D { x: -32768, y: 32767 }\n\n\n"
    );
    assert_eq!(position_header(&Vector2D::new(-1, -10)), "pos: Vector2D { x: -1, y: -10 }\n\n\n");
    assert_eq!(position_header(&Vector2D::new(1203, 4056)), "pos: Vector2D { x: 1203, y: 4056 }\n\n\n");
    assert_eq!(position_header(&Vector2D::new(789, -9)), "pos: Vector2D { x: 789, y: -9 }\n\n\n");
}

#[test]
fn position_header_agrees_with_debug_formatting() {
    for x in [i16::MIN, -999, -1, 0, 7, 42, 1000, i16::MAX] {
        for y in [i16::MIN, -10, 0, 5, 99, 12345, i16::MAX] {
            let v = Vector2D::new(x, y);
            assert_eq!(position_header(&v), format!("pos: {:?}\n\n\n", v));
        }
    }
}

#[test]
fn lone_head_on_three_by_three_board() {
    let bounds = Vector2D::new(3, 3);
    let mut queue = RenderQueue::new();
    queue.push(QueuedTile::new_within(Tile::SnakeHead, Vector2D::new(1, 1), bounds));
    let board = render_board(&bounds, queue);
    assert_eq!(board, "+---+\n|   |\n| x |\n|   |\n+---+");
    let lines: Vec<&str> = board.split('\n').collect();
    assert_eq!(lines.len(), 5);
    assert_eq!(lines[0].len(), 5);
    assert_eq!(lines[4].len(), 5);
    assert_eq!(board.matches('x').count(), 1);
    assert_eq!(board.matches(' ').count(), 8);
}

#[test]
fn empty_queue_renders_an_empty_board() {
    let board = render_board(&Vector2D::new(2, 1), RenderQueue::new());
    assert_eq!(board, "+--+\n|  |\n+--+");
    let single = render_board(&Vector2D::new(1, 1), RenderQueue::new());
    assert_eq!(single, "+-+\n| |\n+-+");
}

#[test]
fn every_kind_of_tile_is_drawn_in_its_cell() {
    let bounds = Vector2D::new(4, 2);
    let mut queue = RenderQueue::new();
    queue.push(QueuedTile::new_within(Tile::Cherry, Vector2D::new(3, 1), bounds));
    queue.push(QueuedTile::new_within(Tile::SnakeTailGhost, Vector2D::new(0, 0), bounds));
    queue.push(QueuedTile::new_within(Tile::SnakeHead, Vector2D::new(2, 0), bounds));
    queue.push(QueuedTile::new_within(Tile::SnakeTail, Vector2D::new(1, 0), bounds));
    queue.push(QueuedTile::new_within(Tile::Space, Vector2D::new(0, 1), bounds));
    assert_eq!(render_board(&bounds, queue), "+----+\n|.ox |\n|   c|\n+----+");
}

#[test]
fn shared_cell_shows_the_tile_of_greatest_precedence() {
    let bounds = Vector2D::new(3, 2);
    let mut queue = RenderQueue::new();
    queue.push(QueuedTile::new_within(Tile::Cherry, Vector2D::new(0, 0), bounds));
    queue.push(QueuedTile::new_within(Tile::SnakeHead, Vector2D::new(0, 0), bounds));
    queue.push(QueuedTile::new_within(Tile::SnakeTailGhost, Vector2D::new(1, 0), bounds));
    queue.push(QueuedTile::new_within(Tile::SnakeTail, Vector2D::new(1, 0), bounds));
    queue.push(QueuedTile::new_within(Tile::Cherry, Vector2D::new(2, 0), bounds));
    queue.push(QueuedTile::new_within(Tile::SnakeTailGhost, Vector2D::new(2, 0), bounds));
    queue.push(QueuedTile::new_within(Tile::SnakeTail, Vector2D::new(2, 1), bounds));
    assert_eq!(render_board(&bounds, queue), "+---+\n|xo.|\n|  o|\n+---+");
}

#[test]
fn tiles_after_a_shared_cell_are_still_drawn() {
    let bounds = Vector2D::new(3, 1);
    let mut queue = RenderQueue::new();
    queue.push(QueuedTile::new_within(Tile::SnakeTail, Vector2D::new(0, 0), bounds));
    queue.push(QueuedTile::new_within(Tile::SnakeTail, Vector2D::new(0, 0), bounds));
    queue.push(QueuedTile::new_within(Tile::SnakeTail, Vector2D::new(0, 0), bounds));
    queue.push(QueuedTile::new_within(Tile::Cherry, Vector2D::new(2, 0), bounds));
    assert_eq!(render_board(&bounds, queue), "+---+\n|o c|\n+---+");
}

#[test]
fn tiles_with_weights_off_the_board_are_not_drawn() {
    let bounds = Vector2D::new(2, 2);
    let mut queue = RenderQueue::new();
    queue.push(QueuedTile(Tile::SnakeHead, 100));
    queue.push(QueuedTile(Tile::SnakeTail, 5));
    queue.push(QueuedTile(Tile::SnakeTail, 3));
    queue.push(QueuedTile(Tile::Cherry, 0));
    queue.push(QueuedTile(Tile::Cherry, -7));
    assert_eq!(render_board(&bounds, queue), "+--+\n| o|\n|  |\n+--+");
}

#[test]
fn every_row_is_as_wide_as_the_board() {
    let bounds = Vector2D::new(9, 6);
    let mut queue = RenderQueue::new();
    for y in 0..6 {
        for x in 0..9 {
            if (x + y) % 2 == 0 {
                queue.push(QueuedTile::new_within(Tile::SnakeTail, Vector2D::new(x, y), bounds));
            }
        }
    }
    let board = render_board(&bounds, queue);
    let lines: Vec<&str> = board.split('\n').collect();
    assert_eq!(lines.len(), 8);
    for line in &lines {
        assert_eq!(line.chars().count(), 11);
    }
    assert_eq!(lines[0], "+---------+");
    assert_eq!(lines[1], "|o o o o o|");
    assert_eq!(lines[2], "| o o o o |");
    assert_eq!(lines[7], "+---------+");
}
