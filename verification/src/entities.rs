//! The kinds of entity that a level is made of, and how each is made.

use crate::components::{
    Box, BoxColour, BoxSpot, Immovable, Movable, Player, Position, Renderable, Wall,
};
use crate::world::{has_player, Entity, World};
use vstd::prelude::*;
use vstd::string::*;

verus! {

/// The kinds of entity that a level is made of.
#[derive(Clone, Copy, Debug, PartialEq, Eq, Structural)]
pub enum Kind {
    Floor,
    Wall,
    Player,
    Box(BoxColour),
    BoxSpot(BoxColour),
}

impl Kind {
    /// The layer on which the kind is drawn: floors lowest, spots above
    /// them, everything else on top.
    pub open spec fn layer(self) -> u8 {
        match self {
            Kind::Floor => 5,
            Kind::BoxSpot(_) => 9,
            _ => 10,
        }
    }

    /// The images of the kind, frame by frame.
    pub open spec fn images(self) -> Seq<Seq<char>> {
        match self {
            Kind::Floor => seq!["/images/floor.png"@],
            Kind::Wall => seq!["/images/wall.png"@],
            Kind::Player => seq![
                "/images/player_1.png"@,
                "/images/player_2.png"@,
                "/images/player_3.png"@,
            ],
            Kind::Box(colour) => seq![
                "/images/box_"@ + colour.name() + "_1.png"@,
                "/images/box_"@ + colour.name() + "_2.png"@,
            ],
            Kind::BoxSpot(colour) => seq!["/images/box_spot_"@ + colour.name() + ".png"@],
        }
    }

    /// `entity` is an entity of this kind in the cell of `position`: it
    /// has the kind's components and no others, stands in that cell on
    /// the kind's layer and is drawn with the kind's images.
    pub open spec fn makes(self, position: Position, entity: Entity) -> bool {
        &&& entity.position == Some(Position { x: position.x, y: position.y, z: self.layer() })
        &&& entity.renderable is Some
        &&& entity.renderable->0@ == self.images()
        &&& entity.movable is Some <==> self is Player || self is Box
        &&& entity.immovable is Some <==> self is Wall
        &&& entity.wall is Some <==> self is Wall
        &&& entity.player is Some <==> self is Player
        &&& entity.the_box == match self {
            Kind::Box(colour) => Some(Box { colour }),
            _ => None,
        }
        &&& entity.box_spot == match self {
            Kind::BoxSpot(colour) => Some(BoxSpot { colour }),
            _ => None,
        }
    }
}

/// `after` is `before` with one more entity of `kind` at `position`.
pub open spec fn spawned(
    before: Seq<Entity>,
    after: Seq<Entity>,
    kind: Kind,
    position: Position,
) -> bool {
    &&& after.len() == before.len() + 1
    &&& after.drop_last() == before
    &&& kind.makes(position, after.last())
}

impl World {
    /// Adds `entity` to the table and returns its index.
    pub fn spawn(&mut self, entity: Entity) -> (id: usize)
        ensures
            id == old(self).entities@.len(),
            final(self).entities@ == old(self).entities@.push(entity),
            final(self).input_queue == old(self).input_queue,
            final(self).event_queue == old(self).event_queue,
            final(self).gameplay == old(self).gameplay,
            final(self).time == old(self).time,
            old(self).wf() && entity.wf() && !(entity.player is Some && has_player(
                old(self).entities@,
            )) ==> final(self).wf(),
    {
        let id = self.entities.len();
        self.entities.push(entity);
        id
    }
}

/// Adds an entity of `kind` in the cell of `position` and returns its
/// index.
pub fn create(world: &mut World, kind: Kind, position: Position) -> (id: usize)
    ensures
        id == old(world).entities@.len(),
        spawned(old(world).entities@, final(world).entities@, kind, position),
        final(world).input_queue == old(world).input_queue,
        final(world).event_queue == old(world).event_queue,
        final(world).gameplay == old(world).gameplay,
        final(world).time == old(world).time,
        old(world).wf() && !(kind is Player && has_player(old(world).entities@))
            ==> final(world).wf(),
{
    match kind {
        Kind::Floor => create_floor(world, position),
        Kind::Wall => create_wall(world, position),
        Kind::Player => create_player(world, position),
        Kind::Box(colour) => create_box(world, position, colour),
        Kind::BoxSpot(colour) => create_box_spot(world, position, colour),
    }
}

/// Adds a wall in the cell of `position` and returns its index.
pub fn create_wall(world: &mut World, position: Position) -> (id: usize)
    ensures
        id == old(world).entities@.len(),
        spawned(old(world).entities@, final(world).entities@, Kind::Wall, position),
        final(world).input_queue == old(world).input_queue,
        final(world).event_queue == old(world).event_queue,
        final(world).gameplay == old(world).gameplay,
        final(world).time == old(world).time,
        old(world).wf() ==> final(world).wf(),
{
    let id = world.spawn(
        Entity {
            position: Some(Position { x: position.x, y: position.y, z: 10 }),
            renderable: Some(Renderable::new_static(String::from_str("/images/wall.png"))),
            movable: None,
            immovable: Some(Immovable),
            wall: Some(Wall {  }),
            player: None,
            the_box: None,
            box_spot: None,
        },
    );
    assert(world.entities@.drop_last() =~= old(world).entities@);
    id
}

/// Adds a floor tile in the cell of `position` and returns its index.
pub fn create_floor(world: &mut World, position: Position) -> (id: usize)
    ensures
        id == old(world).entities@.len(),
        spawned(old(world).entities@, final(world).entities@, Kind::Floor, position),
        final(world).input_queue == old(world).input_queue,
        final(world).event_queue == old(world).event_queue,
        final(world).gameplay == old(world).gameplay,
        final(world).time == old(world).time,
        old(world).wf() ==> final(world).wf(),
{
    let id = world.spawn(
        Entity {
            position: Some(Position { x: position.x, y: position.y, z: 5 }),
            renderable: Some(Renderable::new_static(String::from_str("/images/floor.png"))),
            movable: None,
            immovable: None,
            wall: None,
            player: None,
            the_box: None,
            box_spot: None,
        },
    );
    assert(world.entities@.drop_last() =~= old(world).entities@);
    id
}

/// Adds a box of `colour` in the cell of `position` and returns its
/// index.
pub fn create_box(world: &mut World, position: Position, colour: BoxColour) -> (id: usize)
    ensures
        id == old(world).entities@.len(),
        spawned(old(world).entities@, final(world).entities@, Kind::Box(colour), position),
        final(world).input_queue == old(world).input_queue,
        final(world).event_queue == old(world).event_queue,
        final(world).gameplay == old(world).gameplay,
        final(world).time == old(world).time,
        old(world).wf() ==> final(world).wf(),
{
    let name = colour.to_string();
    let first = String::from_str("/images/box_").concat(name.as_str()).concat("_1.png");
    let second = String::from_str("/images/box_").concat(name.as_str()).concat("_2.png");
    let mut paths: Vec<String> = Vec::new();
    paths.push(first);
    paths.push(second);
    let renderable = Renderable::new_animated(paths);
    assert(renderable@ =~= Kind::Box(colour).images());
    let id = world.spawn(
        Entity {
            position: Some(Position { x: position.x, y: position.y, z: 10 }),
            renderable: Some(renderable),
            movable: Some(Movable),
            immovable: None,
            wall: None,
            player: None,
            the_box: Some(Box { colour }),
            box_spot: None,
        },
    );
    assert(world.entities@.drop_last() =~= old(world).entities@);
    id
}

/// Adds a spot of `colour` in the cell of `position` and returns its
/// index.
pub fn create_box_spot(world: &mut World, position: Position, colour: BoxColour) -> (id: usize)
    ensures
        id == old(world).entities@.len(),
        spawned(old(world).entities@, final(world).entities@, Kind::BoxSpot(colour), position),
        final(world).input_queue == old(world).input_queue,
        final(world).event_queue == old(world).event_queue,
        final(world).gameplay == old(world).gameplay,
        final(world).time == old(world).time,
        old(world).wf() ==> final(world).wf(),
{
    let name = colour.to_string();
    let path = String::from_str("/images/box_spot_").concat(name.as_str()).concat(".png");
    let id = world.spawn(
        Entity {
            position: Some(Position { x: position.x, y: position.y, z: 9 }),
            renderable: Some(Renderable::new_static(path)),
            movable: None,
            immovable: None,
            wall: None,
            player: None,
            the_box: None,
            box_spot: Some(BoxSpot { colour }),
        },
    );
    assert(world.entities@.drop_last() =~= old(world).entities@);
    id
}

/// Adds the player in the cell of `position` and returns its index. A
/// world is meant to hold one player: a second one makes it ill formed.
pub fn create_player(world: &mut World, position: Position) -> (id: usize)
    ensures
        id == old(world).entities@.len(),
        spawned(old(world).entities@, final(world).entities@, Kind::Player, position),
        final(world).input_queue == old(world).input_queue,
        final(world).event_queue == old(world).event_queue,
        final(world).gameplay == old(world).gameplay,
        final(world).time == old(world).time,
        old(world).wf() && !has_player(old(world).entities@)
            ==> final(world).wf(),
{
    let mut paths: Vec<String> = Vec::new();
    paths.push(String::from_str("/images/player_1.png"));
    paths.push(String::from_str("/images/player_2.png"));
    paths.push(String::from_str("/images/player_3.png"));
    let renderable = Renderable::new_animated(paths);
    assert(renderable@ =~= Kind::Player.images());
    let id = world.spawn(
        Entity {
            position: Some(Position { x: position.x, y: position.y, z: 10 }),
            renderable: Some(renderable),
            movable: Some(Movable),
            immovable: None,
            wall: None,
            player: Some(Player {  }),
            the_box: None,
            box_spot: None,
        },
    );
    assert(world.entities@.drop_last() =~= old(world).entities@);
    id
}

} // verus!
