//! The game state and the tick engine that advances it.

use std::collections::VecDeque;
use std::convert::Infallible;
use vstd::prelude::*;
use vstd::string::*;
use crate::direction::Direction;
use crate::geometry::{wrap_near, Vector2D};
use crate::input::KeyboardEvent;
use crate::laws::{lemma_head_moves_one_cell, lemma_tick_keeps_wf};
use crate::placement::{board_full, first_free_cell, is_free, occupies, random_i16, settle_draws};
use crate::queue::{tile_for, RenderQueue};
use crate::render::{grid_text, header_text, lemma_grid_text_agrees, position_header, queue_picture, render_board};
use crate::tile::{board_fits, cell_weight, lemma_weight_injective, lemma_weight_range, QueuedTile, Tile};

verus! {

/// The least time between two ticks, in microseconds: four frames of a
/// display that shows sixty frames a second. That is 66 666 and two thirds
/// microseconds, so a call 66 666 microseconds after a tick still comes too
/// soon and a call 66 667 microseconds after it does not.
pub const TICK_INTERVAL: u64 = 66_667;

/// The greatest length of the ghost trail.
pub const GHOST_CAP: usize = 5;

/// Width and height of the board of a new game.
pub const BOARD_SIZE: i16 = 51;

/// Both coordinates of the head of a new game.
pub const START: i16 = 25;

/// The number of body segments of a new game.
pub const INITIAL_TAIL: i16 = 15;

/// The number of ghost segments of a new game.
pub const INITIAL_GHOST: i16 = 5;

/// How many random candidates a placement tries before it takes the first
/// free cell in raster order.
pub const PLACEMENT_DRAWS: u32 = 64;

/// What a call of `update` tells the driver.
#[derive(Clone, Copy, Debug, PartialEq, Eq, Structural)]
pub enum GameEff {
    /// The snake ran into itself: the game is over.
    End,
    /// The game goes on.
    Cont,
}

/// The mathematical state of a game.
pub struct GameView {
    /// Where the food lies.
    pub cherry: Vector2D,
    /// The time of the last tick that was accepted.
    pub freshness: u64,
    /// Width and height of the board.
    pub dimensions: Vector2D,
    /// The cell of the head.
    pub position: Vector2D,
    /// The heading.
    pub direction: Direction,
    /// The body behind the head, newest segment first.
    pub tail: Seq<Vector2D>,
    /// The cells that the body left last, newest first.
    pub tail_ghost: Seq<Vector2D>,
}

impl GameView {
    /// The state of a new game whose cherry lies on `cherry`: the head in the
    /// middle of the board heading down, the body in the cells above it, the
    /// ghost trail above the body.
    pub open spec fn initial(cherry: Vector2D) -> GameView {
        GameView {
            cherry,
            freshness: 0,
            dimensions: Vector2D { x: BOARD_SIZE, y: BOARD_SIZE },
            position: Vector2D { x: START, y: START },
            direction: Direction::Down,
            tail: Seq::new(INITIAL_TAIL as nat, |i: int| Vector2D { x: START, y: (START - 1 - i) as i16 }),
            tail_ghost: Seq::new(
                INITIAL_GHOST as nat,
                |i: int| Vector2D { x: START, y: (START - 1 - INITIAL_TAIL - i) as i16 },
            ),
        }
    }

    /// The board is non-empty and small enough for 16-bit weights, everything
    /// lies on it, and the ghost trail is within its cap. The body may be
    /// empty: such a state can be drawn, though not every tick can be made
    /// from it (see `can_tick`).
    pub open spec fn wf(self) -> bool {
        &&& board_fits(self.dimensions)
        &&& self.position.in_bounds(self.dimensions)
        &&& self.cherry.in_bounds(self.dimensions)
        &&& self.tail_ghost.len() <= GHOST_CAP
        &&& forall|i: int|
            0 <= i < self.tail.len() ==> (#[trigger] self.tail[i]).in_bounds(self.dimensions)
        &&& forall|i: int|
            0 <= i < self.tail_ghost.len() ==> (#[trigger] self.tail_ghost[i]).in_bounds(
                self.dimensions,
            )
    }

    /// The state after a keyboard event: the heading follows the event if it
    /// selects one, and nothing else changes.
    pub open spec fn steered(self, event: KeyboardEvent) -> GameView {
        match Direction::selected_by(event) {
            Some(direction) => GameView { direction, ..self },
            None => self,
        }
    }

    /// A call at `timestamp` comes too soon after the last accepted tick.
    pub open spec fn gated(self, timestamp: u64) -> bool {
        timestamp - self.freshness < TICK_INTERVAL
    }

    /// The head is on the cherry.
    pub open spec fn eating(self) -> bool {
        self.position == self.cherry
    }

    /// A tick can be made: where the snake does not eat, the tick moves the
    /// body's oldest segment to the ghost trail, so the body must have one.
    pub open spec fn can_tick(self) -> bool {
        self.eating() || self.tail.len() >= 1
    }

    /// The head lies on a body segment.
    pub open spec fn collided(self) -> bool {
        self.tail.contains(self.position)
    }

    /// The cell one step ahead of the head, wrapped around the board's edges.
    pub open spec fn next_position(self) -> Vector2D {
        self.position.sum(self.direction.unit()).wrapped(self.dimensions)
    }

    /// The head is one cell further along the heading of `before`, around
    /// the edges of the board: on each axis its coordinate is that of
    /// `before`, plus the velocity, plus the board's side, modulo the side.
    /// It lies on the board; from a cell of the board a step over an edge
    /// lands on the opposite edge. The cell it left is the newest segment
    /// of the body.
    pub open spec fn head_moved_from(self, before: GameView) -> bool {
        &&& self.position.x == (before.position.x + before.direction.unit().x
            + before.dimensions.x) % (before.dimensions.x as int)
        &&& self.position.y == (before.position.y + before.direction.unit().y
            + before.dimensions.y) % (before.dimensions.y as int)
        &&& self.position.in_bounds(before.dimensions)
        &&& before.position.in_bounds(before.dimensions) ==> {
            &&& self.position.x == wrap_near(
                before.position.x + before.direction.unit().x,
                before.dimensions.x as int,
            )
            &&& self.position.y == wrap_near(
                before.position.y + before.direction.unit().y,
                before.dimensions.y as int,
            )
        }
        &&& self.tail.len() >= 1
        &&& self.tail[0] == before.position
    }

    /// The body after the growth step of a tick, before the head's cell joins
    /// it: the body takes in the whole ghost trail where the snake eats, and
    /// loses its oldest segment where it does not.
    pub open spec fn grown_tail(self) -> Seq<Vector2D> {
        if self.eating() {
            self.tail + self.tail_ghost
        } else {
            self.tail.drop_last()
        }
    }

    /// The ghost trail after a tick: empty where the snake eats; else the
    /// segment that the body lost comes to its front, and its oldest entry
    /// goes where that makes it longer than the cap.
    pub open spec fn faded_ghost(self) -> Seq<Vector2D> {
        if self.eating() {
            Seq::empty()
        } else {
            let trail = seq![self.tail.last()] + self.tail_ghost;
            if trail.len() > GHOST_CAP {
                trail.drop_last()
            } else {
                trail
            }
        }
    }

    /// The state after one accepted tick at `timestamp`, where `placed` is the
    /// cell for the next cherry, should the snake eat this one.
    pub open spec fn ticked(self, timestamp: u64, placed: Vector2D) -> GameView {
        GameView {
            cherry: if self.eating() {
                placed
            } else {
                self.cherry
            },
            freshness: timestamp,
            dimensions: self.dimensions,
            position: self.next_position(),
            direction: self.direction,
            tail: seq![self.position] + self.grown_tail(),
            tail_ghost: self.faded_ghost(),
        }
    }

    /// The state after a call at `timestamp`: unchanged where the call is
    /// gated, one tick further where it is not.
    pub open spec fn updated(self, timestamp: u64, placed: Vector2D) -> GameView {
        if self.gated(timestamp) {
            self
        } else {
            self.ticked(timestamp, placed)
        }
    }

    /// What a call at `timestamp` reports: the end of the game exactly where
    /// a tick was made and the head's new cell is a cell of the body.
    pub open spec fn outcome(self, timestamp: u64, placed: Vector2D) -> GameEff {
        if !self.gated(timestamp) && self.ticked(timestamp, placed).collided() {
            GameEff::End
        } else {
            GameEff::Cont
        }
    }

    /// The tile that the frame shows in `cell`: the head covers the body, the
    /// body its ghost, and the ghost the cherry.
    pub open spec fn tile_at(self, cell: Vector2D) -> Tile {
        if self.position == cell {
            Tile::SnakeHead
        } else if self.tail.contains(cell) {
            Tile::SnakeTail
        } else if self.tail_ghost.contains(cell) {
            Tile::SnakeTailGhost
        } else if self.cherry == cell {
            Tile::Cherry
        } else {
            Tile::Space
        }
    }

    /// The frame as a picture: the tile in column `x` of row `y`.
    pub open spec fn picture(self) -> spec_fn(int, int) -> Tile {
        |x: int, y: int| self.tile_at(Vector2D { x: x as i16, y: y as i16 })
    }

    /// The text of the frame: the header with the head's position, then the
    /// framed board.
    pub open spec fn rendered(self) -> Seq<char> {
        header_text(self.position) + grid_text(self.dimensions, self.picture())
    }

    /// The queue entry of a tile in `cell`.
    pub open spec fn entry_for(self, tile: Tile, cell: Vector2D) -> QueuedTile {
        QueuedTile(tile, cell_weight(cell, self.dimensions) as i16)
    }

    /// One entry for each thing that the frame shows: the head, the body
    /// segments, the ghost segments and the cherry.
    pub open spec fn entries(self) -> Seq<QueuedTile> {
        self.entries_through(self.tail.len() as int, self.tail_ghost.len() as int).push(
            self.entry_for(Tile::Cherry, self.cherry),
        )
    }

    /// The entries of the head, of the first `tails` body segments and of
    /// the first `ghosts` ghost segments.
    pub open spec fn entries_through(self, tails: int, ghosts: int) -> Seq<QueuedTile> {
        seq![self.entry_for(Tile::SnakeHead, self.position)] + Seq::new(
            tails as nat,
            |i: int| self.entry_for(Tile::SnakeTail, self.tail[i]),
        ) + Seq::new(ghosts as nat, |i: int| self.entry_for(Tile::SnakeTailGhost, self.tail_ghost[i]))
    }

    /// `entry` stands for the head, for one of the first `tails` body
    /// segments, for one of the first `ghosts` ghost segments or, where
    /// `cherry` is set, for the cherry.
    pub open spec fn shows_through(self, entry: QueuedTile, tails: int, ghosts: int, cherry: bool) -> bool {
        ||| entry == self.entry_for(Tile::SnakeHead, self.position)
        ||| exists|i: int|
            0 <= i < tails && entry == self.entry_for(Tile::SnakeTail, #[trigger] self.tail[i])
        ||| exists|i: int|
            0 <= i < ghosts && entry == self.entry_for(
                Tile::SnakeTailGhost,
                #[trigger] self.tail_ghost[i],
            )
        ||| cherry && entry == self.entry_for(Tile::Cherry, self.cherry)
    }

    /// `entry` stands for one of the things that the frame shows.
    pub open spec fn shows(self, entry: QueuedTile) -> bool {
        self.shows_through(entry, self.tail.len() as int, self.tail_ghost.len() as int, true)
    }
}

/// One game of snake.
pub struct Game {
    cherry: Vector2D,
    freshness: u64,
    dimensions: Vector2D,
    position: Vector2D,
    direction: Direction,
    tail: VecDeque<Vector2D>,
    tail_ghost: VecDeque<Vector2D>,
}

impl View for Game {
    type V = GameView;

    closed spec fn view(&self) -> GameView {
        GameView {
            cherry: self.cherry,
            freshness: self.freshness,
            dimensions: self.dimensions,
            position: self.position,
            direction: self.direction,
            tail: self.tail@,
            tail_ghost: self.tail_ghost@,
        }
    }
}

impl Game {
    /// The state is well formed.
    pub open spec fn wf(&self) -> bool {
        self@.wf()
    }

    /// A new game. The cherry lies on a free cell of the board, chosen at
    /// random.
    pub fn new() -> (game: Game)
        ensures
            game.wf(),
            game@ == GameView::initial(game@.cherry),
            is_free(game@.cherry, game@.dimensions, game@.tail),
    {
        let position = Vector2D::scalar(START);
        let dimensions = Vector2D::scalar(BOARD_SIZE);
        let mut tail: VecDeque<Vector2D> = VecDeque::new();
        let mut tail_ghost: VecDeque<Vector2D> = VecDeque::new();
        let mut i: i16 = 0;
        while i < INITIAL_TAIL
            invariant
                0 <= i <= INITIAL_TAIL,
                position == (Vector2D { x: START, y: START }),
                tail@ == Seq::new(i as nat, |k: int| Vector2D { x: START, y: (START - 1 - k) as i16 }),
            decreases INITIAL_TAIL - i,
        {
            tail.push_back(position.minus(Vector2D::new(0, 1 + i)));
            i += 1;
            assert(tail@ =~= Seq::new(
                i as nat,
                |k: int| Vector2D { x: START, y: (START - 1 - k) as i16 },
            ));
        }
        let mut j: i16 = 0;
        while j < INITIAL_GHOST
            invariant
                0 <= j <= INITIAL_GHOST,
                position == (Vector2D { x: START, y: START }),
                tail_ghost@ == Seq::new(
                    j as nat,
                    |k: int| Vector2D { x: START, y: (START - 1 - INITIAL_TAIL - k) as i16 },
                ),
            decreases INITIAL_GHOST - j,
        {
            tail_ghost.push_back(position.minus(Vector2D::new(0, 1 + INITIAL_TAIL + j)));
            j += 1;
            assert(tail_ghost@ =~= Seq::new(
                j as nat,
                |k: int| Vector2D { x: START, y: (START - 1 - INITIAL_TAIL - k) as i16 },
            ));
        }
        let placed = Self::create_cherry(&dimensions, &tail);
        assert(placed is Some) by {
            let corner = Vector2D { x: 0, y: 0 };
            assert(corner.in_bounds(dimensions));
            assert(!tail@.contains(corner));
        }
        let cherry = placed.unwrap();
        let game = Game {
            cherry,
            freshness: 0,
            dimensions,
            direction: Direction::Down,
            position,
            tail,
            tail_ghost,
        };
        assert(game@.tail =~= GameView::initial(cherry).tail);
        assert(game@.tail_ghost =~= GameView::initial(cherry).tail_ghost);
        assert(board_fits(dimensions));
        game
    }

    /// A game in a given state, or `None` where the state is not well formed:
    /// the board must be non-empty with at most `i16::MAX` cells, the head, the
    /// cherry and every segment must lie on it, and the ghost trail must be
    /// within its cap. The body may be empty.
    pub fn from_parts(
        dimensions: Vector2D,
        position: Vector2D,
        direction: Direction,
        tail: VecDeque<Vector2D>,
        tail_ghost: VecDeque<Vector2D>,
        cherry: Vector2D,
        freshness: u64,
    ) -> (game: Option<Game>)
        ensures
            match game {
                Some(g) => g.wf() && g@ == (GameView {
                    cherry,
                    freshness,
                    dimensions,
                    position,
                    direction,
                    tail: tail@,
                    tail_ghost: tail_ghost@,
                }),
                None => !(GameView {
                    cherry,
                    freshness,
                    dimensions,
                    position,
                    direction,
                    tail: tail@,
                    tail_ghost: tail_ghost@,
                }).wf(),
            },
    {
        if dimensions.x <= 0 || dimensions.y <= 0 {
            return None;
        }
        let width: i32 = dimensions.x as i32;
        let height: i32 = dimensions.y as i32;
        assert(0 < width * height <= 0x4000_0000) by (nonlinear_arith)
            requires
                0 < width <= 0x8000,
                0 < height <= 0x8000,
        ;
        let cells: i32 = width * height;
        if cells > i16::MAX as i32 {
            return None;
        }
        if !position.within(&dimensions) || !cherry.within(&dimensions) {
            return None;
        }
        if tail_ghost.len() > GHOST_CAP {
            return None;
        }
        let ghost view = GameView {
            cherry,
            freshness,
            dimensions,
            position,
            direction,
            tail: tail@,
            tail_ghost: tail_ghost@,
        };
        if !all_within(&tail, &dimensions) {
            proof {
                if view.wf() {
                    assert forall|i: int| 0 <= i < tail@.len() implies (#[trigger] tail@[i]).in_bounds(
                        dimensions,
                    ) by {
                        assert(view.tail[i].in_bounds(view.dimensions));
                    }
                }
            }
            return None;
        }
        if !all_within(&tail_ghost, &dimensions) {
            proof {
                if view.wf() {
                    assert forall|i: int| 0 <= i < tail_ghost@.len() implies (
                    #[trigger] tail_ghost@[i]).in_bounds(dimensions) by {
                        assert(view.tail_ghost[i].in_bounds(view.dimensions));
                    }
                }
            }
            return None;
        }
        Some(Game { cherry, freshness, dimensions, position, direction, tail, tail_ghost })
    }

    /// Where the food lies.
    pub fn cherry(&self) -> (cherry: Vector2D)
        ensures
            cherry == self@.cherry,
    {
        self.cherry
    }

    /// The time of the last accepted tick, in microseconds.
    pub fn freshness(&self) -> (freshness: u64)
        ensures
            freshness == self@.freshness,
    {
        self.freshness
    }

    /// Width and height of the board.
    pub fn dimensions(&self) -> (dimensions: Vector2D)
        ensures
            dimensions == self@.dimensions,
    {
        self.dimensions
    }

    /// The cell of the head.
    pub fn position(&self) -> (position: Vector2D)
        ensures
            position == self@.position,
    {
        self.position
    }

    /// The heading.
    pub fn direction(&self) -> (direction: Direction)
        ensures
            direction == self@.direction,
    {
        self.direction
    }

    /// The body behind the head, newest segment first.
    pub fn tail(&self) -> (tail: &VecDeque<Vector2D>)
        ensures
            tail@ == self@.tail,
    {
        &self.tail
    }

    /// The ghost trail, newest entry first.
    pub fn tail_ghost(&self) -> (tail_ghost: &VecDeque<Vector2D>)
        ensures
            tail_ghost@ == self@.tail_ghost,
    {
        &self.tail_ghost
    }

    /// Turns the snake where the event selects a heading.
    pub fn on_key(&mut self, event: KeyboardEvent)
        ensures
            final(self)@ == old(self)@.steered(event),
            final(self).wf() == old(self).wf(),
    {
        if let Some(direction) = Direction::from_keyboard_event(event) {
            self.direction = direction;
        }
        assert(self@.tail == old(self)@.tail && self@.tail_ghost == old(self)@.tail_ghost);
    }

    /// Advances the game at `timestamp` like `update`, with the cell for the
    /// next cherry given by the caller instead of drawn at random. `placed`
    /// is used only where the tick is made and the head is on the cherry.
    pub fn step_with(&mut self, timestamp: u64, placed: Vector2D) -> (effect: GameEff)
        requires
            old(self).wf(),
            placed.in_bounds(old(self)@.dimensions),
            old(self)@.gated(timestamp) || old(self)@.can_tick(),
        ensures
            final(self).wf(),
            final(self)@ == old(self)@.updated(timestamp, placed),
            effect == old(self)@.outcome(timestamp, placed),
            old(self)@.tail.len() >= 1 || !old(self)@.gated(timestamp) ==> final(self)@.tail.len()
                >= 1,
            !old(self)@.gated(timestamp) ==> final(self)@.head_moved_from(old(self)@),
    {
        if timestamp < self.freshness || timestamp - self.freshness < TICK_INTERVAL {
            return GameEff::Cont;
        }
        let ghost before = self@;
        if self.position.x != self.cherry.x || self.position.y != self.cherry.y {
            if let Some(dead) = self.tail.pop_back() {
                self.tail_ghost.push_front(dead);
            }
        } else {
            self.cherry = placed;
            self.tail.append(&mut self.tail_ghost);
        }
        if self.tail_ghost.len() > GHOST_CAP {
            self.tail_ghost.pop_back();
        }
        assert(self.tail@ =~= before.grown_tail());
        assert(self.tail_ghost@ =~= before.faded_ghost());
        self.tail.push_front(self.position);
        self.position = self.position.plus(self.direction.velocity()).wrap(self.dimensions);
        self.freshness = timestamp;
        proof {
            let after = before.ticked(timestamp, placed);
            assert(self@.tail =~= after.tail);
            assert(self@.tail_ghost =~= after.tail_ghost);
            assert(self@ == after);
            lemma_tick_keeps_wf(before, timestamp, placed);
            lemma_head_moves_one_cell(before, timestamp, placed);
        }
        if occupies(&self.tail, self.position) {
            GameEff::End
        } else {
            GameEff::Cont
        }
    }

    /// Advances the game to `timestamp`, given in microseconds. A call that
    /// comes less than `TICK_INTERVAL` after the last accepted tick changes
    /// nothing. Otherwise the snake makes one step: where its head is on the
    /// cherry, a new cherry is placed and the body takes in the ghost trail;
    /// where it is not, the body's oldest segment moves to the ghost trail.
    /// Then the head's cell joins the body and the head moves on by one cell,
    /// around the edges of the board. The result is `End` exactly where a
    /// step was made and the head's new cell is a cell of the body.
    ///
    /// The new cherry lies on a cell that was free of the body when it was
    /// placed. Where the body took every cell the cherry stays, and the step
    /// ends the game.
    ///
    /// A step in which the snake does not eat takes the body's oldest
    /// segment, so it asks for a body that is not empty; the body is not
    /// empty after any step.
    pub fn update(&mut self, timestamp: u64) -> (effect: GameEff)
        requires
            old(self).wf(),
            old(self)@.gated(timestamp) || old(self)@.can_tick(),
        ensures
            final(self).wf(),
            old(self)@.tail.len() >= 1 || !old(self)@.gated(timestamp) ==> final(self)@.tail.len()
                >= 1,
            !old(self)@.gated(timestamp) ==> final(self)@.head_moved_from(old(self)@),
            final(self)@ == old(self)@.updated(timestamp, final(self)@.cherry),
            effect == old(self)@.outcome(timestamp, final(self)@.cherry),
            old(self)@.gated(timestamp) ==> final(self)@ == old(self)@ && effect == GameEff::Cont,
            !old(self)@.gated(timestamp) ==> (effect == GameEff::End <==> final(self)@.collided()),
            old(self)@.gated(timestamp) || !old(self)@.eating() ==> final(self)@.cherry == old(
                self,
            )@.cherry,
            !old(self)@.gated(timestamp) && old(self)@.eating() ==> (if board_full(
                old(self)@.dimensions,
                old(self)@.tail,
            ) {
                final(self)@.cherry == old(self)@.cherry
            } else {
                is_free(final(self)@.cherry, old(self)@.dimensions, old(self)@.tail)
            }),
    {
        let gated = timestamp < self.freshness || timestamp - self.freshness < TICK_INTERVAL;
        let eating = self.position.x == self.cherry.x && self.position.y == self.cherry.y;
        let placed = if !gated && eating {
            match Self::create_cherry(&self.dimensions, &self.tail) {
                Some(cell) => cell,
                None => self.cherry,
            }
        } else {
            self.cherry
        };
        self.step_with(timestamp, placed)
    }

    /// The setup hook of the driver's lifecycle. The game has nothing to set
    /// up: the call changes nothing and cannot fail.
    pub fn install_deps(&mut self) -> (done: Result<(), Infallible>)
        ensures
            done is Ok,
            final(self)@ == old(self)@,
    {
        Ok(())
    }

    /// The text of the current frame.
    pub fn render(&self) -> (frame: String)
        requires
            self.wf(),
        ensures
            frame@ == self@.rendered(),
    {
        let mut frame = position_header(&self.position);
        let queue = self.render_heap();
        proof {
            lemma_queue_draws_frame(self@, queue@);
            lemma_grid_text_agrees(
                self@.dimensions,
                queue_picture(queue@, self@.dimensions),
                self@.picture(),
            );
        }
        let board = render_board(&self.dimensions, queue);
        frame.append(board.as_str());
        frame
    }

    /// Queues one tile for each thing on the board: the head, every body
    /// segment, every ghost segment and the cherry.
    pub fn render_heap(&self) -> (queue: RenderQueue)
        requires
            self.wf(),
        ensures
            queue.wf(),
            queue@.to_multiset() == self@.entries().to_multiset(),
            queue@.len() == self@.tail.len() + self@.tail_ghost.len() + 2,
            forall|entry: QueuedTile| queue@.contains(entry) <==> self@.shows(entry),
    {
        let ghost view = self@;
        let mut queue = RenderQueue::new();
        proof {
            lemma_weight_range(self.position, self.dimensions);
        }
        queue.push(QueuedTile::new_within(Tile::SnakeHead, self.position, self.dimensions));
        proof {
            let head = view.entry_for(Tile::SnakeHead, view.position);
            vstd::seq_lib::to_multiset_build(Seq::<QueuedTile>::empty(), head);
            assert(Seq::<QueuedTile>::empty().push(head) =~= view.entries_through(0, 0));
        }
        let tails: usize = self.tail.len();
        let mut i: usize = 0;
        while i < tails
            invariant
                view == self@,
                view.wf(),
                tails == view.tail.len(),
                i <= tails,
                queue.wf(),
                queue@.len() == 1 + i,
                queue@.to_multiset() == view.entries_through(i as int, 0).to_multiset(),
                forall|entry: QueuedTile|
                    queue@.contains(entry) <==> view.shows_through(entry, i as int, 0, false),
            decreases tails - i,
        {
            let node: Vector2D = self.tail[i];
            proof {
                assert(node == view.tail[i as int]);
                lemma_weight_range(node, self.dimensions);
            }
            let ghost before = queue@;
            let queued = QueuedTile::new_within(Tile::SnakeTail, node, self.dimensions);
            queue.push(queued);
            proof {
                vstd::seq_lib::to_multiset_build(view.entries_through(i as int, 0), queued);
                assert(view.entries_through(i as int, 0).push(queued) =~= view.entries_through(
                    i + 1,
                    0,
                ));
                assert forall|entry: QueuedTile| queue@.contains(entry) <==> view.shows_through(
                    entry,
                    i + 1,
                    0,
                    false,
                ) by {
                    assert(queue@.contains(entry) <==> (entry == queued || before.contains(entry)));
                    assert(before.contains(entry) <==> view.shows_through(entry, i as int, 0, false));
                    if entry == queued {
                        assert(entry == view.entry_for(Tile::SnakeTail, view.tail[i as int]));
                    }
                }
            }
            i += 1;
        }
        let ghosts: usize = self.tail_ghost.len();
        let mut j: usize = 0;
        while j < ghosts
            invariant
                view == self@,
                view.wf(),
                tails == view.tail.len(),
                ghosts == view.tail_ghost.len(),
                j <= ghosts,
                queue.wf(),
                queue@.len() == 1 + tails + j,
                queue@.to_multiset() == view.entries_through(tails as int, j as int).to_multiset(),
                forall|entry: QueuedTile|
                    queue@.contains(entry) <==> view.shows_through(
                        entry,
                        tails as int,
                        j as int,
                        false,
                    ),
            decreases ghosts - j,
        {
            let node: Vector2D = self.tail_ghost[j];
            proof {
                assert(node == view.tail_ghost[j as int]);
                lemma_weight_range(node, self.dimensions);
            }
            let ghost before = queue@;
            let queued = QueuedTile::new_within(Tile::SnakeTailGhost, node, self.dimensions);
            queue.push(queued);
            proof {
                vstd::seq_lib::to_multiset_build(
                    view.entries_through(tails as int, j as int),
                    queued,
                );
                assert(view.entries_through(tails as int, j as int).push(queued)
                    =~= view.entries_through(tails as int, j + 1));
                assert forall|entry: QueuedTile| queue@.contains(entry) <==> view.shows_through(
                    entry,
                    tails as int,
                    j + 1,
                    false,
                ) by {
                    assert(queue@.contains(entry) <==> (entry == queued || before.contains(entry)));
                    assert(before.contains(entry) <==> view.shows_through(
                        entry,
                        tails as int,
                        j as int,
                        false,
                    ));
                    if entry == queued {
                        assert(entry == view.entry_for(
                            Tile::SnakeTailGhost,
                            view.tail_ghost[j as int],
                        ));
                    }
                }
            }
            j += 1;
        }
        proof {
            lemma_weight_range(self.cherry, self.dimensions);
        }
        let ghost before = queue@;
        let queued = QueuedTile::new_within(Tile::Cherry, self.cherry, self.dimensions);
        queue.push(queued);
        proof {
            vstd::seq_lib::to_multiset_build(
                view.entries_through(tails as int, ghosts as int),
                queued,
            );
            assert forall|entry: QueuedTile| queue@.contains(entry) <==> view.shows(entry) by {
                assert(queue@.contains(entry) <==> (entry == queued || before.contains(entry)));
                assert(before.contains(entry) <==> view.shows_through(
                    entry,
                    tails as int,
                    ghosts as int,
                    false,
                ));
            }
        }
        queue
    }

    /// Picks a cell for a cherry by rejection sampling: random candidates are
    /// drawn until one is free of the body, and the first that `settle_draws`
    /// accepts is taken. After `PLACEMENT_DRAWS` rejected
    /// candidates the first free cell in raster order is taken, so the search
    /// ends on every board. The result is `None` exactly where the body takes
    /// every cell.
    pub fn create_cherry(bounds: &Vector2D, tail: &VecDeque<Vector2D>) -> (cherry: Option<Vector2D>)
        requires
            bounds.is_positive(),
        ensures
            match cherry {
                Some(cell) => is_free(cell, *bounds, tail@),
                None => board_full(*bounds, tail@),
            },
    {
        let mut draws: u32 = 0;
        while draws < PLACEMENT_DRAWS
            invariant
                bounds.is_positive(),
            decreases PLACEMENT_DRAWS - draws,
        {
            let rx: i16 = random_i16();
            let ry: i16 = random_i16();
            let settled = settle_draws(rx, ry, bounds, tail);
            if settled.is_some() {
                return settled;
            }
            draws += 1;
        }
        first_free_cell(bounds, tail)
    }
}

/// Whether every segment lies on the board.
fn all_within(segments: &VecDeque<Vector2D>, bounds: &Vector2D) -> (inside: bool)
    ensures
        inside == (forall|i: int|
            0 <= i < segments@.len() ==> (#[trigger] segments@[i]).in_bounds(*bounds)),
{
    let n: usize = segments.len();
    let mut i: usize = 0;
    while i < n
        invariant
            i <= n,
            n == segments@.len(),
            forall|k: int| 0 <= k < i ==> (#[trigger] segments@[k]).in_bounds(*bounds),
        decreases n - i,
    {
        let segment: Vector2D = segments[i];
        if !segment.within(bounds) {
            assert(!segments@[i as int].in_bounds(*bounds));
            return false;
        }
        i += 1;
    }
    true
}

/// A queue that holds exactly the entries of a frame draws the frame: on
/// every cell of the board the tile that the queue yields is the tile that
/// the state shows there.
pub proof fn lemma_queue_draws_frame(view: GameView, entries: Seq<QueuedTile>)
    requires
        view.wf(),
        forall|entry: QueuedTile| entries.contains(entry) <==> view.shows(entry),
    ensures
        forall|x: int, y: int|
            0 <= x < view.dimensions.x && 0 <= y < view.dimensions.y ==> #[trigger] queue_picture(
                entries,
                view.dimensions,
            )(x, y) == view.picture()(x, y),
{
    assert forall|x: int, y: int|
        0 <= x < view.dimensions.x && 0 <= y < view.dimensions.y implies #[trigger] queue_picture(
        entries,
        view.dimensions,
    )(x, y) == view.picture()(x, y) by {
        let cell = Vector2D { x: x as i16, y: y as i16 };
        lemma_cell_claims(view, entries, cell);
    }
}

/// For a cell of the board, a queue that holds exactly the entries of a
/// frame holds a tile of some kind with the cell's weight exactly where a
/// thing of that kind lies on the cell.
proof fn lemma_cell_claims(view: GameView, entries: Seq<QueuedTile>, cell: Vector2D)
    requires
        view.wf(),
        cell.in_bounds(view.dimensions),
        forall|entry: QueuedTile| entries.contains(entry) <==> view.shows(entry),
    ensures
        tile_for(entries, cell_weight(cell, view.dimensions) as i16) == view.tile_at(cell),
{
    let bounds = view.dimensions;
    let weight = cell_weight(cell, bounds) as i16;
    lemma_weight_range(cell, bounds);
    lemma_weight_range(view.position, bounds);
    lemma_weight_range(view.cherry, bounds);
    let head = QueuedTile(Tile::SnakeHead, weight);
    let body = QueuedTile(Tile::SnakeTail, weight);
    let trail = QueuedTile(Tile::SnakeTailGhost, weight);
    let cherry = QueuedTile(Tile::Cherry, weight);
    assert(entries.contains(head) <==> view.position == cell) by {
        assert(entries.contains(head) <==> view.shows(head));
        if view.shows(head) {
            lemma_weight_injective(view.position, cell, bounds);
        }
    }
    assert(entries.contains(body) <==> view.tail.contains(cell)) by {
        assert(entries.contains(body) <==> view.shows(body));
        if view.shows(body) {
            let i = choose|i: int|
                0 <= i < view.tail.len() && body == view.entry_for(
                    Tile::SnakeTail,
                    #[trigger] view.tail[i],
                );
            lemma_weight_range(view.tail[i], bounds);
            lemma_weight_injective(view.tail[i], cell, bounds);
        }
        if view.tail.contains(cell) {
            let i = choose|i: int| 0 <= i < view.tail.len() && view.tail[i] == cell;
            assert(body == view.entry_for(Tile::SnakeTail, view.tail[i]));
        }
    }
    assert(entries.contains(trail) <==> view.tail_ghost.contains(cell)) by {
        assert(entries.contains(trail) <==> view.shows(trail));
        if view.shows(trail) {
            let i = choose|i: int|
                0 <= i < view.tail_ghost.len() && trail == view.entry_for(
                    Tile::SnakeTailGhost,
                    #[trigger] view.tail_ghost[i],
                );
            lemma_weight_range(view.tail_ghost[i], bounds);
            lemma_weight_injective(view.tail_ghost[i], cell, bounds);
        }
        if view.tail_ghost.contains(cell) {
            let i = choose|i: int| 0 <= i < view.tail_ghost.len() && view.tail_ghost[i] == cell;
            assert(trail == view.entry_for(Tile::SnakeTailGhost, view.tail_ghost[i]));
        }
    }
    assert(entries.contains(cherry) <==> view.cherry == cell) by {
        assert(entries.contains(cherry) <==> view.shows(cherry));
        if view.shows(cherry) {
            lemma_weight_injective(view.cherry, cell, bounds);
        }
    }
}

} // verus!
