//! The entity table and the world that holds it.

use crate::components::{
    Box, BoxSpot, Immovable, Movable, Player, Position, Renderable, Wall,
};
use crate::events::Event;
use crate::resources::{EventQueue, Gameplay, GameplayState, InputQueue, Key, Time};
use vstd::prelude::*;

verus! {

/// One row of the entity table: the components an entity carries. An
/// entity is known by its index in [`World::entities`], which never
/// changes: entities are created at level load and never removed.
#[derive(Debug)]
pub struct Entity {
    pub position: Option<Position>,
    pub renderable: Option<Renderable>,
    pub movable: Option<Movable>,
    pub immovable: Option<Immovable>,
    pub wall: Option<Wall>,
    pub player: Option<Player>,
    pub the_box: Option<Box>,
    pub box_spot: Option<BoxSpot>,
}

impl Entity {
    /// The rules on tags: nothing is both movable and immovable, a wall
    /// is immovable, a box and a player are movable.
    pub open spec fn wf(self) -> bool {
        &&& !(self.movable is Some && self.immovable is Some)
        &&& self.wall is Some ==> self.immovable is Some
        &&& self.the_box is Some ==> self.movable is Some
        &&& self.player is Some ==> self.movable is Some
    }

    /// The entity has a position, and it is in `cell`.
    pub open spec fn is_at(self, cell: (u8, u8)) -> bool {
        self.position matches Some(p) && p.cell() == cell
    }

    /// The same entity, standing at `position`.
    pub open spec fn moved_to(self, position: Position) -> Entity {
        Entity { position: Some(position), ..self }
    }

    /// An entity without any component.
    pub fn new() -> (e: Self)
        ensures
            e.position is None,
            e.renderable is None,
            e.movable is None,
            e.immovable is None,
            e.wall is None,
            e.player is None,
            e.the_box is None,
            e.box_spot is None,
            e.wf(),
    {
        Entity {
            position: None,
            renderable: None,
            movable: None,
            immovable: None,
            wall: None,
            player: None,
            the_box: None,
            box_spot: None,
        }
    }

    /// Checks the rules on tags.
    pub fn is_well_formed(&self) -> (ok: bool)
        ensures
            ok == self.wf(),
    {
        !(self.movable.is_some() && self.immovable.is_some())
            && (self.wall.is_none() || self.immovable.is_some())
            && (self.the_box.is_none() || self.movable.is_some())
            && (self.player.is_none() || self.movable.is_some())
    }
}

/// Every entity obeys the rules on tags, and at most one is a player.
pub open spec fn entities_wf(entities: Seq<Entity>) -> bool {
    &&& forall|i: int| 0 <= i < entities.len() ==> (#[trigger] entities[i]).wf()
    &&& forall|i: int, j: int|
        0 <= i < j < entities.len() && (#[trigger] entities[i]).player is Some ==> (
        #[trigger] entities[j]).player is None
}

/// Some entity is a player.
pub open spec fn has_player(entities: Seq<Entity>) -> bool {
    exists|i: int| 0 <= i < entities.len() && (#[trigger] entities[i]).player is Some
}

/// The whole state of a game: the entity table and the shared resources
/// that the phases read and write.
#[derive(Debug)]
pub struct World {
    pub entities: Vec<Entity>,
    pub input_queue: InputQueue,
    pub event_queue: EventQueue,
    pub gameplay: Gameplay,
    pub time: Time,
}

impl World {
    /// The world is well formed: its entities obey the rules on tags,
    /// and at most one of them is a player.
    pub open spec fn wf(self) -> bool {
        entities_wf(self.entities@)
    }

    /// An empty world: no entity, empty queues, state `Playing`.
    pub fn new() -> (world: Self)
        ensures
            world.entities@ == Seq::<Entity>::empty(),
            world.input_queue.keys_pressed@ == Seq::<Key>::empty(),
            world.event_queue.events@ == Seq::<Event>::empty(),
            world.gameplay == (Gameplay { state: GameplayState::Playing, moves_count: 0 }),
            world.time == (Time { delta_nanos: 0 }),
            world.wf(),
    {
        World {
            entities: Vec::new(),
            input_queue: InputQueue::default(),
            event_queue: EventQueue::default(),
            gameplay: Gameplay::default(),
            time: Time::default(),
        }
    }

    /// Tells whether some entity is a player.
    pub fn has_player(&self) -> (found: bool)
        ensures
            found == has_player(self.entities@),
    {
        let mut i: usize = 0;
        while i < self.entities.len()
            invariant
                i <= self.entities@.len(),
                forall|k: int| 0 <= k < i ==> (#[trigger] self.entities@[k]).player is None,
            decreases self.entities@.len() - i,
        {
            if self.entities[i].player.is_some() {
                return true;
            }
            i += 1;
        }
        false
    }

    /// Checks the rules that every world must obey.
    pub fn is_well_formed(&self) -> (ok: bool)
        ensures
            ok == self.wf(),
    {
        let mut seen_player = false;
        let ghost mut first: int = 0;
        let mut i: usize = 0;
        while i < self.entities.len()
            invariant
                i <= self.entities@.len(),
                !seen_player ==> forall|k: int|
                    0 <= k < i ==> (#[trigger] self.entities@[k]).player is None,
                seen_player ==> 0 <= first < i && self.entities@[first].player is Some,
                forall|k: int| 0 <= k < i ==> (#[trigger] self.entities@[k]).wf(),
                forall|k: int, j: int|
                    0 <= k < j < i && (#[trigger] self.entities@[k]).player is Some ==> (
                    #[trigger] self.entities@[j]).player is None,
            decreases self.entities@.len() - i,
        {
            if !self.entities[i].is_well_formed() {
                return false;
            }
            if self.entities[i].player.is_some() {
                if seen_player {
                    return false;
                }
                seen_player = true;
                proof {
                    first = i as int;
                }
            }
            i += 1;
        }
        true
    }
}

} // verus!
