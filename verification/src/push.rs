//! Push resolution: which entities a push sets in motion.

use crate::components::Position;
use crate::constants::{MAP_HEIGHT, MAP_WIDTH};
use crate::resources::Key;
use crate::spatial_index::SpatialIndex;
use vstd::prelude::*;

verus! {

/// One of the four ways a player can push.
#[derive(Clone, Copy, Debug, PartialEq, Eq, Structural)]
pub enum Direction {
    Up,
    Down,
    Left,
    Right,
}

impl Key {
    /// The direction an arrow key stands for; no other key has one.
    pub open spec fn direction(self) -> Option<Direction> {
        match self {
            Key::Up => Some(Direction::Up),
            Key::Down => Some(Direction::Down),
            Key::Left => Some(Direction::Left),
            Key::Right => Some(Direction::Right),
            Key::Other => None,
        }
    }

    /// The direction that the key stands for, if it is an arrow.
    pub fn to_direction(&self) -> (direction: Option<Direction>)
        ensures
            direction == self.direction(),
    {
        match self {
            Key::Up => Some(Direction::Up),
            Key::Down => Some(Direction::Down),
            Key::Left => Some(Direction::Left),
            Key::Right => Some(Direction::Right),
            Key::Other => None,
        }
    }
}

impl Direction {
    /// The push goes towards row or column 0.
    pub open spec fn is_backward(self) -> bool {
        self == Direction::Up || self == Direction::Left
    }

    /// Number of cells that a push from `from` looks at: from the start
    /// cell up to the rim of the grid, both included. The rim is row or
    /// column 0 one way, `MAP_HEIGHT` or `MAP_WIDTH` the other way. A
    /// push that starts beyond the rim looks at nothing.
    pub open spec fn reach(self, from: (u8, u8)) -> nat {
        match self {
            Direction::Left => (from.0 + 1) as nat,
            Direction::Up => (from.1 + 1) as nat,
            Direction::Right => if from.0 <= MAP_WIDTH {
                (MAP_WIDTH - from.0 + 1) as nat
            } else {
                0
            },
            Direction::Down => if from.1 <= MAP_HEIGHT {
                (MAP_HEIGHT - from.1 + 1) as nat
            } else {
                0
            },
        }
    }

    /// The cell `k` steps away from `from`.
    pub open spec fn cell(self, from: (u8, u8), k: int) -> (u8, u8) {
        match self {
            Direction::Left => ((from.0 - k) as u8, from.1),
            Direction::Up => (from.0, (from.1 - k) as u8),
            Direction::Right => ((from.0 + k) as u8, from.1),
            Direction::Down => (from.0, (from.1 + k) as u8),
        }
    }

    /// A position one cell further in this direction, on the same layer.
    pub open spec fn shifted(self, position: Position) -> Position {
        match self {
            Direction::Left => Position { x: (position.x - 1) as u8, ..position },
            Direction::Up => Position { y: (position.y - 1) as u8, ..position },
            Direction::Right => Position { x: (position.x + 1) as u8, ..position },
            Direction::Down => Position { y: (position.y + 1) as u8, ..position },
        }
    }

    /// Tells whether the push goes towards row or column 0.
    pub fn goes_backward(&self) -> (yes: bool)
        ensures
            yes == self.is_backward(),
    {
        match self {
            Direction::Up | Direction::Left => true,
            Direction::Down | Direction::Right => false,
        }
    }

    /// Number of cells that a push from `from` looks at.
    pub fn reach_of(&self, from: Position) -> (n: u16)
        ensures
            n == self.reach(from.cell()),
    {
        match self {
            Direction::Left => from.x as u16 + 1,
            Direction::Up => from.y as u16 + 1,
            Direction::Right => if from.x <= MAP_WIDTH {
                (MAP_WIDTH - from.x) as u16 + 1
            } else {
                0
            },
            Direction::Down => if from.y <= MAP_HEIGHT {
                (MAP_HEIGHT - from.y) as u16 + 1
            } else {
                0
            },
        }
    }

    /// The cell `k` steps away from `from`, for a step within reach.
    pub fn cell_of(&self, from: Position, k: u16) -> (cell: (u8, u8))
        requires
            k < self.reach(from.cell()),
        ensures
            cell == self.cell(from.cell(), k as int),
    {
        match self {
            Direction::Left => ((from.x as u16 - k) as u8, from.y),
            Direction::Up => (from.x, (from.y as u16 - k) as u8),
            Direction::Right => ((from.x as u16 + k) as u8, from.y),
            Direction::Down => (from.x, (from.y as u16 + k) as u8),
        }
    }
}

/// Number of cells with something movable that a push meets one after
/// the other from its `k`-th cell on, before the first cell without or
/// the end of its reach.
pub open spec fn run_length(
    movables: Map<(u8, u8), usize>,
    direction: Direction,
    from: (u8, u8),
    k: nat,
) -> nat
    decreases direction.reach(from) - k,
{
    if k < direction.reach(from) && movables.contains_key(direction.cell(from, k as int)) {
        1 + run_length(movables, direction, from, k + 1)
    } else {
        0
    }
}

/// The chain that a push from `from` sets in motion, or `None` where the
/// push is blocked.
///
/// The chain is made of the movable entities in the cells from `from`
/// on, as far as one follows the other, nearest first. The push is
/// blocked if the cell behind them lies within reach and holds something
/// immovable. An empty cell behind them, or the end of the reach, lets
/// the chain move.
pub open spec fn chain_of(
    movables: Map<(u8, u8), usize>,
    immovables: Map<(u8, u8), usize>,
    direction: Direction,
    from: (u8, u8),
) -> Option<Seq<usize>> {
    let n = run_length(movables, direction, from, 0);
    if n < direction.reach(from) && immovables.contains_key(direction.cell(from, n as int)) {
        None
    } else {
        Some(Seq::new(n, |j: int| movables[direction.cell(from, j)]))
    }
}

/// A run stays within reach, each of its cells holds something movable,
/// and the cell behind it, if within reach, does not.
pub proof fn lemma_run_length(
    movables: Map<(u8, u8), usize>,
    direction: Direction,
    from: (u8, u8),
    k: nat,
)
    ensures
        k <= direction.reach(from) ==> k + run_length(movables, direction, from, k)
            <= direction.reach(from),
        forall|j: int|
            k <= j < k + run_length(movables, direction, from, k) ==> movables.contains_key(
                #[trigger] direction.cell(from, j),
            ),
        k + run_length(movables, direction, from, k) < direction.reach(from)
            ==> !movables.contains_key(
            direction.cell(from, (k + run_length(movables, direction, from, k)) as int),
        ),
    decreases direction.reach(from) - k,
{
    if k < direction.reach(from) && movables.contains_key(direction.cell(from, k as int)) {
        lemma_run_length(movables, direction, from, k + 1);
    }
}

/// Where `m` cells from the `k`-th on hold something movable and the
/// next one does not, or lies out of reach, the run is `m` cells long.
pub proof fn lemma_run_length_is(
    movables: Map<(u8, u8), usize>,
    direction: Direction,
    from: (u8, u8),
    k: nat,
    m: nat,
)
    requires
        k + m <= direction.reach(from),
        forall|j: int| k <= j < k + m ==> movables.contains_key(#[trigger] direction.cell(from, j)),
        k + m < direction.reach(from) ==> !movables.contains_key(
            direction.cell(from, (k + m) as int),
        ),
    ensures
        run_length(movables, direction, from, k) == m,
    decreases m,
{
    if m > 0 {
        lemma_run_length_is(movables, direction, from, k + 1, (m - 1) as nat);
    }
}

/// Walks from `from` towards the rim and gathers the chain to be pushed.
pub fn find_chain(
    movables: &SpatialIndex,
    immovables: &SpatialIndex,
    direction: Direction,
    from: Position,
) -> (found: Option<Vec<usize>>)
    ensures
        found is Some <==> chain_of(movables@, immovables@, direction, from.cell()) is Some,
        found matches Some(chain) ==> chain_of(movables@, immovables@, direction, from.cell())
            == Some(chain@),
{
    let reach = direction.reach_of(from);
    let mut chain: Vec<usize> = Vec::new();
    let mut k: u16 = 0;
    while k < reach
        invariant
            k <= reach,
            reach == direction.reach(from.cell()),
            run_length(movables@, direction, from.cell(), 0) == k + run_length(
                movables@,
                direction,
                from.cell(),
                k as nat,
            ),
            chain@ == Seq::new(k as nat, |j: int| movables@[direction.cell(from.cell(), j)]),
        decreases reach - k,
    {
        let cell = direction.cell_of(from, k);
        match movables.get(cell.0, cell.1) {
            Some(id) => {
                chain.push(id);
            },
            None => {
                if immovables.contains(cell.0, cell.1) {
                    return None;
                }
                return Some(chain);
            },
        }
        k += 1;
    }
    Some(chain)
}

} // verus!
