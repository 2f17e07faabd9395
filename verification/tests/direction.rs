use snake_kernel::direction::Direction;
use snake_kernel::geometry::Vector2D;
use snake_kernel::input::{Key, KeyboardEvent};

#[test]
fn velocity_of_each_heading() {
    assert_eq!(Direction::Up.velocity(), Vector2D::new(0, -1));
    assert_eq!(Direction::Down.velocity(), Vector2D::new(0, 1));
    assert_eq!(Direction::Left.velocity(), Vector2D::new(-1, 0));
    assert_eq!(Direction::Right.velocity(), Vector2D::new(1, 0));
}

#[test]
fn velocity_is_a_unit_vector_on_one_axis() {
    for direction in [Direction::Up, Direction::Down, Direction::Left, Direction::Right] {
        let v = direction.velocity();
        assert_eq!(v.x.abs() + v.y.abs(), 1);
        assert!((v.x == 0) != (v.y == 0));
    }
}

#[test]
fn velocities_of_the_four_headings_cancel() {
    let sum = Direction::Up
        .velocity()
        .plus(Direction::Down.velocity())
        .plus(Direction::Left.velocity())
        .plus(Direction::Right.velocity());
    assert_eq!(sum, Vector2D::new(0, 0));
}

#[test]
fn pressing_a_steering_key_selects_its_heading() {
    assert_eq!(Direction::from_keyboard_event(KeyboardEvent::Down(Key::Char('w'))), Some(Direction::Up));
    assert_eq!(Direction::from_keyboard_event(KeyboardEvent::Down(Key::Char('s'))), Some(Direction::Down));
    assert_eq!(Direction::from_keyboard_event(KeyboardEvent::Down(Key::Char('a'))), Some(Direction::Left));
    assert_eq!(Direction::from_keyboard_event(KeyboardEvent::Down(Key::Char('d'))), Some(Direction::Right));
}

#[test]
fn releasing_a_key_selects_nothing() {
    for c in ['w', 's', 'a', 'd', 'x'] {
        assert_eq!(Direction::from_keyboard_event(KeyboardEvent::Up(Key::Char(c))), None);
    }
    assert_eq!(Direction::from_keyboard_event(KeyboardEvent::Up(Key::Unknown)), None);
}

#[test]
fn other_keys_select_nothing() {
    for c in ['W', 'S', 'A', 'D', 'q', ' ', '8', '\n'] {
        assert_eq!(Direction::from_keyboard_event(KeyboardEvent::Down(Key::Char(c))), None);
    }
    assert_eq!(Direction::from_keyboard_event(KeyboardEvent::Down(Key::Unknown)), None);
}
