//! The events that the phases of a tick pass to each other.

use vstd::prelude::*;

verus! {

/// The entity with this index was moved by one cell.
#[derive(Clone, Copy, Debug, PartialEq, Eq, Structural)]
pub struct EntityMoved {
    pub id: usize,
}

/// A box came to rest on a spot; `is_correct_spot` tells whether the
/// colours match.
#[derive(Clone, Copy, Debug, PartialEq, Eq, Structural)]
pub struct BoxPlacedOnSpot {
    pub is_correct_spot: bool,
}

/// What the phases tell each other through the event queue.
#[derive(Clone, Copy, Debug, PartialEq, Eq, Structural)]
pub enum Event {
    /// The player pushed against something that does not move.
    PlayerHitObstacle,
    EntityMoved(EntityMoved),
    BoxPlacedOnSpot(BoxPlacedOnSpot),
}

} // verus!
