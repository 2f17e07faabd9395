//! Laws of the simulation, stated over its mathematical model and proved
//! for every state.

use vstd::prelude::*;
use crate::direction::Direction;
use crate::game::{GameEff, GameView, GHOST_CAP, TICK_INTERVAL};
use crate::geometry::{lemma_wrap_axis_near, Vector2D};
use crate::placement::{board_full, magnitude};

verus! {

/// The velocity of every heading is a unit vector along exactly one axis:
/// one component is zero and the other is one or minus one.
pub proof fn lemma_velocity_is_unit(direction: Direction)
    ensures
        magnitude(direction.unit().x as int) + magnitude(direction.unit().y as int) == 1,
        (direction.unit().x == 0) != (direction.unit().y == 0),
{
}

/// The velocities of the four headings add up to the zero vector.
pub proof fn lemma_velocities_cancel()
    ensures
        Direction::Up.unit().sum(Direction::Down.unit()).sum(Direction::Left.unit()).sum(
            Direction::Right.unit(),
        ) == (Vector2D { x: 0, y: 0 }),
{
}

/// Wrapping any position around a board with positive sides gives a cell of
/// the board.
pub proof fn lemma_wrapped_in_bounds(position: Vector2D, bound: Vector2D)
    requires
        bound.is_positive(),
    ensures
        position.wrapped(bound).in_bounds(bound),
{
}

/// Wrapping leaves the cells of the board where they are.
pub proof fn lemma_wrapped_fixes_board(position: Vector2D, bound: Vector2D)
    requires
        position.in_bounds(bound),
    ensures
        position.wrapped(bound) == position,
{
    let x = position.x as int;
    let y = position.y as int;
    let w = bound.x as int;
    let h = bound.y as int;
    assert((x + w) % w == x) by (nonlinear_arith)
        requires
            0 <= x < w,
    ;
    assert((y + h) % h == y) by (nonlinear_arith)
        requires
            0 <= y < h,
    ;
}

/// A call that comes less than one interval after the last accepted tick
/// changes nothing and reports that the game goes on.
pub proof fn lemma_early_call_changes_nothing(view: GameView, timestamp: u64, placed: Vector2D)
    requires
        timestamp - view.freshness < TICK_INTERVAL,
    ensures
        view.updated(timestamp, placed) == view,
        view.outcome(timestamp, placed) == GameEff::Cont,
{
}

/// Of two calls that both come less than one interval after the last
/// accepted tick, neither changes the state and both report that the game
/// goes on.
pub proof fn lemma_two_early_calls(
    view: GameView,
    first: u64,
    second: u64,
    placed_first: Vector2D,
    placed_second: Vector2D,
)
    requires
        first - view.freshness < TICK_INTERVAL,
        second - view.freshness < TICK_INTERVAL,
    ensures
        view.updated(first, placed_first) == view,
        view.updated(first, placed_first).updated(second, placed_second) == view,
        view.outcome(first, placed_first) == GameEff::Cont,
        view.updated(first, placed_first).outcome(second, placed_second) == GameEff::Cont,
{
}

/// After a call that made a tick, a call less than one interval later
/// changes nothing and reports that the game goes on.
pub proof fn lemma_call_after_tick_is_gated(
    view: GameView,
    first: u64,
    second: u64,
    placed_first: Vector2D,
    placed_second: Vector2D,
)
    requires
        !view.gated(first),
        second - first < TICK_INTERVAL,
    ensures
        view.updated(first, placed_first).gated(second),
        view.updated(first, placed_first).updated(second, placed_second) == view.updated(
            first,
            placed_first,
        ),
        view.updated(first, placed_first).outcome(second, placed_second) == GameEff::Cont,
{
}

/// A tick keeps a well-formed state well formed and leaves a body that is
/// not empty, given that the tick can be made and that the cell for the
/// next cherry lies on the board.
pub proof fn lemma_tick_keeps_wf(view: GameView, timestamp: u64, placed: Vector2D)
    requires
        view.wf(),
        view.can_tick(),
        placed.in_bounds(view.dimensions),
    ensures
        view.ticked(timestamp, placed).wf(),
        view.updated(timestamp, placed).wf(),
        view.ticked(timestamp, placed).tail.len() >= 1,
        view.ticked(timestamp, placed).can_tick(),
{
    let after = view.ticked(timestamp, placed);
    assert forall|i: int| 0 <= i < after.tail.len() implies (#[trigger] after.tail[i]).in_bounds(
        after.dimensions,
    ) by {
        if i > 0 {
            if view.eating() && i - 1 >= view.tail.len() {
                assert(after.tail[i] == view.tail_ghost[i - 1 - view.tail.len()]);
            } else {
                assert(after.tail[i] == view.tail[i - 1]);
            }
        }
    }
    assert forall|i: int| 0 <= i < after.tail_ghost.len() implies (#[trigger] after.tail_ghost[i]).in_bounds(
        after.dimensions,
    ) by {
        if i > 0 {
            assert(after.tail_ghost[i] == view.tail_ghost[i - 1]);
        } else {
            assert(after.tail_ghost[i] == view.tail.last());
        }
    }
}

/// On a tick on which the snake does not eat, the body keeps its length and
/// the ghost trail grows by one segment up to its cap. With the ghost trail
/// at its cap, body and ghost trail together keep their length.
pub proof fn lemma_length_is_conserved(view: GameView, timestamp: u64, placed: Vector2D)
    requires
        view.wf(),
        view.tail.len() >= 1,
        !view.eating(),
    ensures
        view.ticked(timestamp, placed).tail.len() == view.tail.len(),
        view.ticked(timestamp, placed).tail_ghost.len() == (if view.tail_ghost.len() < GHOST_CAP {
            view.tail_ghost.len() + 1
        } else {
            GHOST_CAP as nat
        }),
        view.tail_ghost.len() == GHOST_CAP ==> view.ticked(timestamp, placed).tail.len()
            + view.ticked(timestamp, placed).tail_ghost.len() == view.tail.len()
            + view.tail_ghost.len(),
{
}

/// On a tick on which the snake eats, the body takes in the whole ghost
/// trail besides the head's cell, the ghost trail is left empty, and the
/// cherry moves to the cell that was placed.
pub proof fn lemma_eating_grows(view: GameView, timestamp: u64, placed: Vector2D)
    requires
        view.eating(),
    ensures
        view.ticked(timestamp, placed).tail == seq![view.position] + view.tail + view.tail_ghost,
        view.ticked(timestamp, placed).tail.len() == view.tail.len() + view.tail_ghost.len() + 1,
        view.ticked(timestamp, placed).tail_ghost.len() == 0,
        view.ticked(timestamp, placed).cherry == placed,
{
    assert(seq![view.position] + (view.tail + view.tail_ghost) =~= seq![view.position] + view.tail
        + view.tail_ghost);
}

/// On every tick the head moves one cell along the heading, around the
/// edges of the board, and the cell that it leaves becomes the newest
/// segment of the body. Heading and board stay as they are.
pub proof fn lemma_head_moves_one_cell(view: GameView, timestamp: u64, placed: Vector2D)
    requires
        view.wf(),
    ensures
        view.ticked(timestamp, placed).head_moved_from(view),
        view.ticked(timestamp, placed).position.x == (view.position.x + view.direction.unit().x
            + view.dimensions.x) % (view.dimensions.x as int),
        view.ticked(timestamp, placed).position.y == (view.position.y + view.direction.unit().y
            + view.dimensions.y) % (view.dimensions.y as int),
        view.ticked(timestamp, placed).position.in_bounds(view.dimensions),
        view.ticked(timestamp, placed).tail[0] == view.position,
        view.ticked(timestamp, placed).freshness == timestamp,
        view.ticked(timestamp, placed).direction == view.direction,
        view.ticked(timestamp, placed).dimensions == view.dimensions,
{
    lemma_wrap_axis_near(
        view.position.x + view.direction.unit().x,
        view.dimensions.x as int,
    );
    lemma_wrap_axis_near(
        view.position.y + view.direction.unit().y,
        view.dimensions.y as int,
    );
}

/// A call reports the end of the game if and only if it made a tick and the
/// head's new cell is a cell of the body: the cell that the head left, or a
/// segment that the body kept or took in.
pub proof fn lemma_end_iff_collision(view: GameView, timestamp: u64, placed: Vector2D)
    ensures
        view.outcome(timestamp, placed) == GameEff::End <==> !view.gated(timestamp) && view.ticked(
            timestamp,
            placed,
        ).tail.contains(view.ticked(timestamp, placed).position),
        view.ticked(timestamp, placed).collided() <==> view.next_position() == view.position
            || view.grown_tail().contains(view.next_position()),
{
    let after = view.ticked(timestamp, placed);
    let head = view.next_position();
    if after.tail.contains(head) {
        let i = choose|i: int| 0 <= i < after.tail.len() && after.tail[i] == head;
        if i > 0 {
            assert(view.grown_tail()[i - 1] == head);
        }
    }
    if head == view.position {
        assert(after.tail[0] == head);
    }
    if view.grown_tail().contains(head) {
        let i = choose|i: int| 0 <= i < view.grown_tail().len() && view.grown_tail()[i] == head;
        assert(after.tail[i + 1] == head);
    }
}

/// Head and body taken together hold no cell twice.
pub open spec fn is_simple(view: GameView) -> bool {
    view.tail.no_duplicates() && !view.tail.contains(view.position)
}

/// A tick on which the snake does not eat and which does not end the game
/// keeps head and body free of repeated cells. On a tick on which the snake
/// eats the same holds where the ghost trail has no cell twice and shares no
/// cell with head and body: the body takes the trail in as it is.
pub proof fn lemma_body_stays_simple(view: GameView, timestamp: u64, placed: Vector2D)
    requires
        view.wf(),
        view.can_tick(),
        is_simple(view),
        !view.ticked(timestamp, placed).collided(),
        view.eating() ==> view.tail_ghost.no_duplicates() && !view.tail_ghost.contains(
            view.position,
        ) && forall|i: int|
            0 <= i < view.tail_ghost.len() ==> !view.tail.contains(#[trigger] view.tail_ghost[i]),
    ensures
        is_simple(view.ticked(timestamp, placed)),
{
    let after = view.ticked(timestamp, placed);
    let grown = view.grown_tail();
    assert forall|i: int, j: int| 0 <= i < j < after.tail.len() implies after.tail[i]
        != after.tail[j] by {
        assert(after.tail[j] == grown[j - 1]);
        if i == 0 {
            assert(after.tail[0] == view.position);
            if view.eating() {
                if j - 1 < view.tail.len() {
                    assert(grown[j - 1] == view.tail[j - 1]);
                } else {
                    assert(grown[j - 1] == view.tail_ghost[j - 1 - view.tail.len()]);
                }
            } else {
                assert(grown[j - 1] == view.tail[j - 1]);
            }
        } else {
            assert(after.tail[i] == grown[i - 1]);
            if view.eating() {
                if j - 1 < view.tail.len() {
                    assert(grown[i - 1] == view.tail[i - 1]);
                    assert(grown[j - 1] == view.tail[j - 1]);
                } else if i - 1 < view.tail.len() {
                    assert(grown[i - 1] == view.tail[i - 1]);
                    assert(grown[j - 1] == view.tail_ghost[j - 1 - view.tail.len()]);
                    assert(view.tail.contains(view.tail[i - 1]));
                } else {
                    assert(grown[i - 1] == view.tail_ghost[i - 1 - view.tail.len()]);
                    assert(grown[j - 1] == view.tail_ghost[j - 1 - view.tail.len()]);
                }
            } else {
                assert(grown[i - 1] == view.tail[i - 1]);
                assert(grown[j - 1] == view.tail[j - 1]);
            }
        }
    }
}

/// Where the body takes every cell of the board and the head is on the
/// cherry, so that no cell is left for a new cherry, the tick ends the game.
pub proof fn lemma_full_board_ends(view: GameView, timestamp: u64, placed: Vector2D)
    requires
        view.wf(),
        view.eating(),
        board_full(view.dimensions, view.tail),
        !view.gated(timestamp),
    ensures
        view.outcome(timestamp, placed) == GameEff::End,
{
    let after = view.ticked(timestamp, placed);
    let head = view.next_position();
    assert(head.in_bounds(view.dimensions));
    assert(view.tail.contains(head));
    let i = choose|i: int| 0 <= i < view.tail.len() && view.tail[i] == head;
    assert(after.tail[i + 1] == head);
}

} // verus!
