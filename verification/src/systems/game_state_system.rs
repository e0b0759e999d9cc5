//! The win evaluation phase.

use crate::components::Position;
use crate::resources::{Gameplay, GameplayState};
use crate::spatial_index::{index_of, lemma_index_of, stands_at, SpatialIndex, Tag};
use crate::world::{Entity, World};
use vstd::prelude::*;

verus! {

/// Some box stands in `cell`.
pub open spec fn covered(entities: Seq<Entity>, cell: (u8, u8)) -> bool {
    exists|j: int| stands_at(entities, Tag::Box, cell, j)
}

/// Entity `i` is a spot with a position, and no box stands in its cell.
pub open spec fn is_open_spot(entities: Seq<Entity>, i: int) -> bool {
    &&& 0 <= i < entities.len()
    &&& entities[i].box_spot is Some
    &&& entities[i].position matches Some(position)
    &&& !covered(entities, position.cell())
}

/// Every spot that has a position has a box in its cell. The colours of
/// box and spot play no part.
pub open spec fn solved(entities: Seq<Entity>) -> bool {
    forall|i: int| !is_open_spot(entities, i)
}

/// The state that the win evaluation gives for these entities.
pub open spec fn state_of(entities: Seq<Entity>) -> GameplayState {
    if solved(entities) {
        GameplayState::Won
    } else {
        GameplayState::Playing
    }
}

/// The gameplay after a win evaluation on these entities: the state is
/// judged anew, the number of moves stays.
pub open spec fn evaluated(gameplay: Gameplay, entities: Seq<Entity>) -> Gameplay {
    Gameplay { state: state_of(entities), moves_count: gameplay.moves_count }
}

/// A second evaluation with no move in between changes nothing.
pub proof fn lemma_evaluation_idempotent(gameplay: Gameplay, entities: Seq<Entity>)
    ensures
        evaluated(evaluated(gameplay, entities), entities) == evaluated(gameplay, entities),
{
}

/// When the only box on a spot is moved to another cell, the puzzle is
/// no longer solved, whatever the colours are.
pub proof fn lemma_box_leaves_spot(
    entities: Seq<Entity>,
    spot: int,
    the_box: int,
    target: Position,
)
    requires
        0 <= spot < entities.len(),
        0 <= the_box < entities.len(),
        spot != the_box,
        entities[spot].box_spot is Some,
        entities[spot].position is Some,
        stands_at(entities, Tag::Box, entities[spot].position->0.cell(), the_box),
        forall|j: int|
            j != the_box ==> !stands_at(entities, Tag::Box, entities[spot].position->0.cell(), j),
        target.cell() != entities[spot].position->0.cell(),
    ensures
        state_of(entities.update(the_box, entities[the_box].moved_to(target)))
            == GameplayState::Playing,
{
    let after = entities.update(the_box, entities[the_box].moved_to(target));
    let cell = entities[spot].position->0.cell();
    assert forall|j: int| !stands_at(after, Tag::Box, cell, j) by {
        if j != the_box {
            assert(!stands_at(entities, Tag::Box, cell, j));
        }
    }
    assert(is_open_spot(after, spot));
}

/// The win evaluation phase.
pub struct GameStateSystem {}

impl GameStateSystem {
    /// Sets the state to `Won` if every spot carries a box, of whatever
    /// colour, and to `Playing` if not. It looks at the positions as they
    /// are now and at nothing else.
    pub fn run(&mut self, world: &mut World)
        ensures
            final(world).gameplay == evaluated(old(world).gameplay, old(world).entities@),
            final(world).entities@ == old(world).entities@,
            final(world).input_queue.keys_pressed@ == old(world).input_queue.keys_pressed@,
            final(world).event_queue.events@ == old(world).event_queue.events@,
            final(world).time == old(world).time,
    {
        let boxes = SpatialIndex::build(&world.entities, Tag::Box);
        let mut i: usize = 0;
        while i < world.entities.len()
            invariant
                i <= world.entities@.len(),
                world.entities@ == old(world).entities@,
                world.input_queue.keys_pressed@ == old(world).input_queue.keys_pressed@,
                world.event_queue.events@ == old(world).event_queue.events@,
                world.gameplay == old(world).gameplay,
                world.time == old(world).time,
                boxes@ == index_of(world.entities@, Tag::Box),
                forall|k: int| 0 <= k < i ==> !is_open_spot(world.entities@, k),
            decreases world.entities@.len() - i,
        {
            if world.entities[i].box_spot.is_some() {
                if let Some(position) = world.entities[i].position {
                    proof {
                        lemma_index_of(world.entities@, Tag::Box, position.cell());
                    }
                    if !boxes.contains(position.x, position.y) {
                        assert(is_open_spot(world.entities@, i as int));
                        world.gameplay.state = GameplayState::Playing;
                        return ;
                    }
                }
            }
            i += 1;
        }
        world.gameplay.state = GameplayState::Won;
    }
}

} // verus!
