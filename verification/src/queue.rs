//! The max-priority structure that hands the tiles of a frame to the renderer
//! in raster order.

use std::collections::VecDeque;
use vstd::prelude::*;
use crate::tile::{QueuedTile, Tile};

verus! {

/// Every entry is drawn no later than the entries behind it.
pub open spec fn is_ordered(entries: Seq<QueuedTile>) -> bool {
    forall|i: int, j: int|
        0 <= i < j < entries.len() ==> #[trigger] entries[i].precedes(entries[j])
}

/// The tile drawn in the cell of weight `weight`, given all the entries of a
/// frame: of the tiles that claim the cell the one of greatest precedence,
/// and empty space where none does.
pub open spec fn tile_for(entries: Seq<QueuedTile>, weight: i16) -> Tile {
    if entries.contains(QueuedTile(Tile::SnakeHead, weight)) {
        Tile::SnakeHead
    } else if entries.contains(QueuedTile(Tile::SnakeTail, weight)) {
        Tile::SnakeTail
    } else if entries.contains(QueuedTile(Tile::SnakeTailGhost, weight)) {
        Tile::SnakeTailGhost
    } else if entries.contains(QueuedTile(Tile::Cherry, weight)) {
        Tile::Cherry
    } else {
        Tile::Space
    }
}

/// A priority queue of tiles. Its view is the sequence of entries in the
/// order in which they leave the queue: greatest weight first, and among
/// equal weights greatest precedence first.
pub struct RenderQueue {
    entries: VecDeque<QueuedTile>,
}

impl View for RenderQueue {
    type V = Seq<QueuedTile>;

    closed spec fn view(&self) -> Seq<QueuedTile> {
        self.entries@
    }
}

impl RenderQueue {
    /// The entries are in extraction order.
    pub open spec fn wf(&self) -> bool {
        is_ordered(self@)
    }

    pub fn new() -> (queue: RenderQueue)
        ensures
            queue.wf(),
            queue@ == Seq::<QueuedTile>::empty(),
    {
        RenderQueue { entries: VecDeque::new() }
    }

    pub fn len(&self) -> (n: usize)
        ensures
            n == self@.len(),
    {
        self.entries.len()
    }

    /// Adds an entry at the one place that keeps the queue ordered, behind
    /// the entries that are its equals. The place is found by bisection.
    pub fn push(&mut self, entry: QueuedTile)
        requires
            old(self).wf(),
        ensures
            final(self).wf(),
            exists|at: int|
                0 <= at <= old(self)@.len() && final(self)@ == #[trigger] old(self)@.insert(
                    at,
                    entry,
                ),
            final(self)@.to_multiset() == old(self)@.to_multiset().insert(entry),
            forall|e: QueuedTile|
                final(self)@.contains(e) <==> (e == entry || old(self)@.contains(e)),
    {
        let n: usize = self.entries.len();
        let mut at: usize = 0;
        let mut end: usize = n;
        while at < end
            invariant
                at <= end <= n,
                n == self.entries@.len(),
                self.entries@ == old(self).entries@,
                is_ordered(self.entries@),
                forall|i: int| 0 <= i < at ==> (#[trigger] self.entries@[i]).precedes(entry),
                forall|i: int| end <= i < n ==> !(#[trigger] self.entries@[i]).precedes(entry),
            decreases end - at,
        {
            let middle: usize = at + (end - at) / 2;
            let ghost pivot = self.entries@[middle as int];
            if self.entries[middle].goes_before(&entry) {
                assert forall|i: int| 0 <= i < middle + 1 implies (#[trigger] self.entries@[i]).precedes(
                    entry,
                ) by {
                    if i < middle {
                        assert(self.entries@[i].precedes(pivot));
                    }
                }
                at = middle + 1;
            } else {
                assert forall|i: int| middle <= i < n implies !(#[trigger] self.entries@[i]).precedes(
                    entry,
                ) by {
                    if i > middle {
                        assert(pivot.precedes(self.entries@[i]));
                    }
                }
                end = middle;
            }
        }
        self.entries.insert(at, entry);
        proof {
            let before = old(self)@;
            let after = self@;
            assert(after == before.insert(at as int, entry));
            vstd::seq_lib::to_multiset_insert(before, at as int, entry);
            assert forall|i: int, j: int| 0 <= i < j < after.len() implies #[trigger] after[i].precedes(
                after[j],
            ) by {
                if j < at {
                    assert(before[i].precedes(before[j]));
                } else if j == at {
                    assert(after[i] == before[i]);
                } else if i < at {
                    assert(before[i].precedes(before[j - 1]));
                } else if i == at {
                    assert(!before[j - 1].precedes(entry));
                } else {
                    assert(before[i - 1].precedes(before[j - 1]));
                }
            }
            assert forall|e: QueuedTile| after.contains(e) <==> (e == entry || before.contains(
                e,
            )) by {
                if after.contains(e) {
                    let i = choose|i: int| 0 <= i < after.len() && after[i] == e;
                    if i < at {
                        assert(before[i] == e);
                    } else if i > at {
                        assert(before[i - 1] == e);
                    }
                }
                if before.contains(e) {
                    let i = choose|i: int| 0 <= i < before.len() && before[i] == e;
                    if i < at {
                        assert(after[i] == e);
                    } else {
                        assert(after[i + 1] == e);
                    }
                }
                if e == entry {
                    assert(after[at as int] == e);
                }
            }
        }
    }

    /// The entry that `pop` would return.
    pub fn peek(&self) -> (top: Option<QueuedTile>)
        ensures
            top == (if self@.len() == 0 {
                None
            } else {
                Some(self@[0])
            }),
    {
        if self.entries.len() == 0 {
            None
        } else {
            Some(self.entries[0])
        }
    }

    /// Removes and returns the entry of greatest priority.
    pub fn pop(&mut self) -> (top: Option<QueuedTile>)
        requires
            old(self).wf(),
        ensures
            final(self).wf(),
            top == (if old(self)@.len() == 0 {
                None
            } else {
                Some(old(self)@[0])
            }),
            final(self)@ == (if old(self)@.len() == 0 {
                old(self)@
            } else {
                old(self)@.skip(1)
            }),
            top matches Some(t) ==> forall|i: int|
                0 <= i < old(self)@.len() ==> t.precedes(#[trigger] old(self)@[i]),
    {
        let top = self.entries.pop_front();
        proof {
            if old(self)@.len() > 0 {
                assert(self@ == old(self)@.skip(1));
                assert(old(self)@[0].precedes(old(self)@[0]));
            }
        }
        top
    }

    /// Settles the cell of weight `weight`: removes every entry whose weight
    /// is at least `weight` and returns the tile to draw in the cell. Entries
    /// of greater weight belong to cells that were passed over and are
    /// dropped undrawn; entries of smaller weight stay for the cells to come.
    pub fn draw_cell(&mut self, weight: i16) -> (tile: Tile)
        requires
            old(self).wf(),
        ensures
            final(self).wf(),
            tile == tile_for(old(self)@, weight),
            exists|n: int|
                {
                    &&& 0 <= n <= old(self)@.len()
                    &&& final(self)@ == #[trigger] old(self)@.skip(n)
                    &&& forall|i: int| 0 <= i < n ==> (#[trigger] old(self)@[i]).1 >= weight
                    &&& forall|i: int|
                        n <= i < old(self)@.len() ==> (#[trigger] old(self)@[i]).1 < weight
                },
            forall|e: QueuedTile|
                final(self)@.contains(e) <==> (old(self)@.contains(e) && e.1 < weight),
    {
        let ghost before = self@;
        let ghost mut n: int = 0;
        let mut drawn: Option<Tile> = None;
        while self.entries.len() > 0
            invariant
                before == old(self)@,
                is_ordered(before),
                0 <= n <= before.len(),
                self.entries@ == before.skip(n),
                forall|i: int| 0 <= i < n ==> (#[trigger] before[i]).1 >= weight,
                drawn is None ==> forall|i: int| 0 <= i < n ==> (#[trigger] before[i]).1 > weight,
                drawn matches Some(t) ==> exists|f: int|
                    {
                        &&& 0 <= f < n
                        &&& #[trigger] before[f] == QueuedTile(t, weight)
                        &&& forall|i: int| 0 <= i < f ==> (#[trigger] before[i]).1 > weight
                    },
            ensures
                n == before.len() || before[n].1 < weight,
            decreases before.len() - n,
        {
            let top = self.entries[0];
            assert(top == before[n]);
            if top.1 < weight {
                break ;
            }
            if top.1 == weight && drawn.is_none() {
                drawn = Some(top.0);
            }
            self.entries.pop_front();
            proof {
                assert(before.skip(n).skip(1) == before.skip(n + 1));
                n = n + 1;
            }
        }
        let tile = match drawn {
            Some(t) => t,
            None => Tile::Space,
        };
        proof {
            let after = self@;
            assert(after == before.skip(n));
            assert forall|i: int| n <= i < before.len() implies (#[trigger] before[i]).1
                < weight by {
                if i > n {
                    assert(before[n].precedes(before[i]));
                }
            }
            assert forall|i: int, j: int| 0 <= i < j < after.len() implies #[trigger] after[i].precedes(
                after[j],
            ) by {
                assert(before[n + i].precedes(before[n + j]));
            }
            assert forall|e: QueuedTile| after.contains(e) <==> (before.contains(e) && e.1
                < weight) by {
                if after.contains(e) {
                    let i = choose|i: int| 0 <= i < after.len() && after[i] == e;
                    assert(before[n + i] == e);
                }
                if before.contains(e) && e.1 < weight {
                    let i = choose|i: int| 0 <= i < before.len() && before[i] == e;
                    assert(after[i - n] == e);
                }
            }
            lemma_first_claim_wins(before, weight, n, drawn);
        }
        tile
    }
}

/// In an ordered queue no entry of a given weight has a tile of greater
/// precedence than the first entry of that weight.
proof fn lemma_first_claim_is_greatest(entries: Seq<QueuedTile>, f: int, other: Tile)
    requires
        is_ordered(entries),
        0 <= f < entries.len(),
        forall|i: int| 0 <= i < f ==> (#[trigger] entries[i]).1 > entries[f].1,
        entries.contains(QueuedTile(other, entries[f].1)),
    ensures
        entries[f].0.precedence() >= other.precedence(),
{
    let i = choose|i: int| 0 <= i < entries.len() && entries[i] == QueuedTile(other, entries[f].1);
    if i > f {
        assert(entries[f].precedes(entries[i]));
    } else if i < f {
        assert(entries[i].1 > entries[f].1);
    }
}

/// In an ordered queue the first entry of a given weight carries the tile
/// that `tile_for` names, and where no entry has that weight the cell is
/// empty space.
proof fn lemma_first_claim_wins(entries: Seq<QueuedTile>, weight: i16, n: int, drawn: Option<Tile>)
    requires
        is_ordered(entries),
        0 <= n <= entries.len(),
        forall|i: int| n <= i < entries.len() ==> (#[trigger] entries[i]).1 < weight,
        drawn is None ==> forall|i: int| 0 <= i < n ==> (#[trigger] entries[i]).1 > weight,
        drawn matches Some(t) ==> exists|f: int|
            {
                &&& 0 <= f < n
                &&& #[trigger] entries[f] == QueuedTile(t, weight)
                &&& forall|i: int| 0 <= i < f ==> (#[trigger] entries[i]).1 > weight
            },
    ensures
        tile_for(entries, weight) == (match drawn {
            Some(t) => t,
            None => Tile::Space,
        }),
{
    match drawn {
        None => {
            assert forall|t: Tile| !entries.contains(QueuedTile(t, weight)) by {
                if entries.contains(QueuedTile(t, weight)) {
                    let i = choose|i: int|
                        0 <= i < entries.len() && entries[i] == QueuedTile(t, weight);
                    assert(entries[i].1 == weight);
                }
            }
        },
        Some(t) => {
            let f = choose|f: int|
                {
                    &&& 0 <= f < n
                    &&& #[trigger] entries[f] == QueuedTile(t, weight)
                    &&& forall|i: int| 0 <= i < f ==> (#[trigger] entries[i]).1 > weight
                };
            assert(entries.contains(QueuedTile(t, weight)));
            if entries.contains(QueuedTile(Tile::SnakeHead, weight)) {
                lemma_first_claim_is_greatest(entries, f, Tile::SnakeHead);
            }
            if entries.contains(QueuedTile(Tile::SnakeTail, weight)) {
                lemma_first_claim_is_greatest(entries, f, Tile::SnakeTail);
            }
            if entries.contains(QueuedTile(Tile::SnakeTailGhost, weight)) {
                lemma_first_claim_is_greatest(entries, f, Tile::SnakeTailGhost);
            }
            if entries.contains(QueuedTile(Tile::Cherry, weight)) {
                lemma_first_claim_is_greatest(entries, f, Tile::Cherry);
            }
        },
    }
}

} // verus!
