//! The snake's heading.

use vstd::prelude::*;
use crate::geometry::Vector2D;
use crate::input::{Key, KeyboardEvent};

verus! {

/// One of the four cardinal headings. There is no guard against reversing:
/// a snake heading `Down` may be turned `Up` and will then run into itself.
#[derive(Clone, Copy, Debug, PartialEq, Eq, Structural)]
pub enum Direction {
    Up,
    Down,
    Left,
    Right,
}

impl Direction {
    /// The heading that a keyboard event selects, if any: pressing `w`, `s`,
    /// `a` or `d` selects `Up`, `Down`, `Left` or `Right`. Releases and all
    /// other keys select nothing.
    pub open spec fn selected_by(event: KeyboardEvent) -> Option<Direction> {
        match event {
            KeyboardEvent::Down(Key::Char(c)) => {
                if c == 'w' {
                    Some(Direction::Up)
                } else if c == 's' {
                    Some(Direction::Down)
                } else if c == 'a' {
                    Some(Direction::Left)
                } else if c == 'd' {
                    Some(Direction::Right)
                } else {
                    None
                }
            },
            _ => None,
        }
    }

    /// The unit step of the heading, with `y` growing downwards.
    pub open spec fn unit(self) -> Vector2D {
        match self {
            Direction::Up => Vector2D { x: 0, y: (-1) as i16 },
            Direction::Down => Vector2D { x: 0, y: 1 },
            Direction::Left => Vector2D { x: (-1) as i16, y: 0 },
            Direction::Right => Vector2D { x: 1, y: 0 },
        }
    }

    pub fn from_keyboard_event(event: KeyboardEvent) -> (selected: Option<Direction>)
        ensures
            selected == Self::selected_by(event),
    {
        match event {
            KeyboardEvent::Down(Key::Char(c)) => {
                if c == 'w' {
                    Some(Direction::Up)
                } else if c == 's' {
                    Some(Direction::Down)
                } else if c == 'a' {
                    Some(Direction::Left)
                } else if c == 'd' {
                    Some(Direction::Right)
                } else {
                    None
                }
            },
            KeyboardEvent::Down(Key::Unknown) => None,
            KeyboardEvent::Up(_) => None,
        }
    }

    pub fn velocity(&self) -> (v: Vector2D)
        ensures
            v == self.unit(),
            (v.x == 0 && (v.y == 1 || v.y == -1)) || (v.y == 0 && (v.x == 1 || v.x == -1)),
    {
        match self {
            Direction::Up => Vector2D::new(0, -1),
            Direction::Down => Vector2D::new(0, 1),
            Direction::Left => Vector2D::new(-1, 0),
            Direction::Right => Vector2D::new(1, 0),
        }
    }
}

} // verus!
