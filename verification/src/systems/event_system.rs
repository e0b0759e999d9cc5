//! The event phase: sounds for the events that wait, and what follows
//! from them.

use crate::audio::Sound;
use crate::events::{BoxPlacedOnSpot, EntityMoved, Event};
use crate::spatial_index::{index_of, lemma_index_of, stands_at, SpatialIndex, Tag};
use crate::world::{Entity, World};
use vstd::prelude::*;

verus! {

/// The event that follows from `event` on these entities, if any: a box
/// that was moved and now stands on a spot gives `BoxPlacedOnSpot`, which
/// tells whether the colours of box and spot are the same. Where several
/// spots lie in the cell, the last one counts. Nothing follows from the
/// move of anything but a box, nor from the other kinds of event.
pub open spec fn follow_up(entities: Seq<Entity>, event: Event) -> Option<Event> {
    match event {
        Event::EntityMoved(EntityMoved { id }) => {
            if id < entities.len() && entities[id as int].the_box is Some
                && entities[id as int].position is Some {
                let cell = entities[id as int].position->0.cell();
                let spots = index_of(entities, Tag::BoxSpot);
                if spots.contains_key(cell) {
                    Some(
                        Event::BoxPlacedOnSpot(
                            BoxPlacedOnSpot {
                                is_correct_spot: entities[spots[cell] as int].box_spot->0.colour
                                    == entities[id as int].the_box->0.colour,
                            },
                        ),
                    )
                } else {
                    None
                }
            } else {
                None
            }
        },
        _ => None,
    }
}

/// The sound that an event asks for, if any.
pub open spec fn sound_of(event: Event) -> Option<Sound> {
    match event {
        Event::PlayerHitObstacle => Some(Sound::Wall),
        Event::EntityMoved(_) => None,
        Event::BoxPlacedOnSpot(BoxPlacedOnSpot { is_correct_spot }) => Some(
            if is_correct_spot {
                Sound::Correct
            } else {
                Sound::Incorrect
            },
        ),
    }
}

/// The events that follow from a batch, in the order of the batch.
pub open spec fn follow_ups(entities: Seq<Entity>, batch: Seq<Event>) -> Seq<Event>
    decreases batch.len(),
{
    if batch.len() == 0 {
        Seq::empty()
    } else {
        let before = follow_ups(entities, batch.drop_last());
        match follow_up(entities, batch.last()) {
            Some(event) => before.push(event),
            None => before,
        }
    }
}

/// The sounds that a batch asks for, in the order of the batch.
pub open spec fn sounds_of(batch: Seq<Event>) -> Seq<Sound>
    decreases batch.len(),
{
    if batch.len() == 0 {
        Seq::empty()
    } else {
        let before = sounds_of(batch.drop_last());
        match sound_of(batch.last()) {
            Some(sound) => before.push(sound),
            None => before,
        }
    }
}

/// The sounds of two batches, one behind the other, are the sounds of
/// the first and behind them those of the second.
pub proof fn lemma_sounds_of_concat(first: Seq<Event>, second: Seq<Event>)
    ensures
        sounds_of(first + second) == sounds_of(first) + sounds_of(second),
    decreases second.len(),
{
    if second.len() > 0 {
        lemma_sounds_of_concat(first, second.drop_last());
        assert((first + second).drop_last() =~= first + second.drop_last());
    }
}

/// What follows from two batches, one behind the other, is what follows
/// from the first and behind it what follows from the second.
pub proof fn lemma_follow_ups_concat(entities: Seq<Entity>, first: Seq<Event>, second: Seq<Event>)
    ensures
        follow_ups(entities, first + second) == follow_ups(entities, first) + follow_ups(
            entities,
            second,
        ),
    decreases second.len(),
{
    if second.len() > 0 {
        lemma_follow_ups_concat(entities, first, second.drop_last());
        assert((first + second).drop_last() =~= first + second.drop_last());
    }
}

/// The pass that handles the moves of a chain asks for no sound on their
/// account: whatever sound a move leads to comes one pass later.
pub proof fn lemma_moves_are_silent(chain: Seq<usize>)
    ensures
        sounds_of(chain.map_values(|id: usize| Event::EntityMoved(EntityMoved { id })))
            == Seq::<Sound>::empty(),
    decreases chain.len(),
{
    let moves = chain.map_values(|id: usize| Event::EntityMoved(EntityMoved { id }));
    if chain.len() > 0 {
        lemma_moves_are_silent(chain.drop_last());
        assert(moves.drop_last() =~= chain.drop_last().map_values(
            |id: usize| Event::EntityMoved(EntityMoved { id }),
        ));
    }
}

/// A box was moved into a cell with a spot. The pass that handles the
/// move asks for no sound and queues one `BoxPlacedOnSpot`; the pass
/// after it asks for `Correct` where box and spot have the same colour
/// and for `Incorrect` where they differ, and queues nothing more.
///
/// `spot` is the spot of the cell; where several lie there, the last.
pub proof fn lemma_placed_sound_lags(entities: Seq<Entity>, id: usize, spot: usize)
    requires
        entities.len() <= usize::MAX,
        id < entities.len(),
        entities[id as int].the_box is Some,
        entities[id as int].position is Some,
        stands_at(entities, Tag::BoxSpot, entities[id as int].position->0.cell(), spot as int),
        forall|j: int|
            spot < j ==> !stands_at(
                entities,
                Tag::BoxSpot,
                entities[id as int].position->0.cell(),
                j,
            ),
    ensures
        sounds_of(seq![Event::EntityMoved(EntityMoved { id })]) == Seq::<Sound>::empty(),
        follow_ups(entities, seq![Event::EntityMoved(EntityMoved { id })]) == seq![
            Event::BoxPlacedOnSpot(
                BoxPlacedOnSpot {
                    is_correct_spot: entities[spot as int].box_spot->0.colour
                        == entities[id as int].the_box->0.colour,
                },
            ),
        ],
        sounds_of(follow_ups(entities, seq![Event::EntityMoved(EntityMoved { id })])) == seq![
            if entities[spot as int].box_spot->0.colour == entities[id as int].the_box->0.colour {
                Sound::Correct
            } else {
                Sound::Incorrect
            },
        ],
        follow_ups(entities, follow_ups(entities, seq![Event::EntityMoved(EntityMoved { id })]))
            == Seq::<Event>::empty(),
{
    let moved = seq![Event::EntityMoved(EntityMoved { id })];
    let cell = entities[id as int].position->0.cell();
    lemma_index_of(entities, Tag::BoxSpot, cell);
    assert(follow_ups(entities, moved.drop_last()) == Seq::<Event>::empty());
    assert(sounds_of(moved.drop_last()) == Seq::<Sound>::empty());
    lemma_follow_ups_settle(entities, moved);
}

/// What follows from a batch is made of `BoxPlacedOnSpot` events only,
/// so each of them asks for a sound in the next pass and nothing follows
/// from them: the queue is empty two passes after the last push.
pub proof fn lemma_follow_ups_settle(entities: Seq<Entity>, batch: Seq<Event>)
    ensures
        forall|i: int|
            0 <= i < follow_ups(entities, batch).len() ==> (#[trigger] follow_ups(
                entities,
                batch,
            )[i]) is BoxPlacedOnSpot,
        sounds_of(follow_ups(entities, batch)).len() == follow_ups(entities, batch).len(),
        follow_ups(entities, follow_ups(entities, batch)) == Seq::<Event>::empty(),
    decreases batch.len(),
{
    if batch.len() > 0 {
        lemma_follow_ups_settle(entities, batch.drop_last());
        let before = follow_ups(entities, batch.drop_last());
        match follow_up(entities, batch.last()) {
            Some(event) => {
                assert(before.push(event).drop_last() =~= before);
            },
            None => {},
        }
    }
}

/// The event phase: it takes the events that wait, asks for their
/// sounds, and queues what follows from them for the next pass.
pub struct EventSystem {}

impl EventSystem {
    /// Handles every event that waits, oldest first, and returns the
    /// sounds to be played, in that order.
    ///
    /// The events that follow from this batch are not handled in this
    /// pass: after it they are all that the queue holds. So the sound for
    /// a box that reached a spot is asked for one pass after the move.
    pub fn run(&mut self, world: &mut World) -> (sounds: Vec<Sound>)
        ensures
            sounds@ == sounds_of(old(world).event_queue.events@),
            final(world).event_queue.events@ == follow_ups(
                old(world).entities@,
                old(world).event_queue.events@,
            ),
            final(world).entities@ == old(world).entities@,
            final(world).input_queue.keys_pressed@ == old(world).input_queue.keys_pressed@,
            final(world).gameplay == old(world).gameplay,
            final(world).time == old(world).time,
    {
        let ghost batch = world.event_queue.events@;
        let spots = SpatialIndex::build(&world.entities, Tag::BoxSpot);
        let mut sounds: Vec<Sound> = Vec::new();
        let mut new_events: Vec<Event> = Vec::new();
        let mut i: usize = 0;
        while i < world.event_queue.events.len()
            invariant
                i <= batch.len(),
                world.event_queue.events@ == batch,
                world.entities@ == old(world).entities@,
                world.input_queue.keys_pressed@ == old(world).input_queue.keys_pressed@,
                world.gameplay == old(world).gameplay,
                world.time == old(world).time,
                spots@ == index_of(world.entities@, Tag::BoxSpot),
                sounds@ == sounds_of(batch.take(i as int)),
                new_events@ == follow_ups(world.entities@, batch.take(i as int)),
            decreases batch.len() - i,
        {
            let event = world.event_queue.events[i];
            proof {
                assert(batch.take(i + 1).drop_last() =~= batch.take(i as int));
            }
            match event {
                Event::PlayerHitObstacle => {
                    sounds.push(Sound::Wall);
                },
                Event::EntityMoved(EntityMoved { id }) => {
                    if id < world.entities.len() {
                        if let Some(the_box) = world.entities[id].the_box {
                            if let Some(box_position) = world.entities[id].position {
                                if let Some(spot) = spots.get(box_position.x, box_position.y) {
                                    proof {
                                        lemma_index_of(
                                            world.entities@,
                                            Tag::BoxSpot,
                                            box_position.cell(),
                                        );
                                    }
                                    let box_spot = world.entities[spot].box_spot.unwrap();
                                    new_events.push(
                                        Event::BoxPlacedOnSpot(
                                            BoxPlacedOnSpot {
                                                is_correct_spot: box_spot.colour == the_box.colour,
                                            },
                                        ),
                                    );
                                }
                            }
                        }
                    }
                },
                Event::BoxPlacedOnSpot(BoxPlacedOnSpot { is_correct_spot }) => {
                    let sound = if is_correct_spot {
                        Sound::Correct
                    } else {
                        Sound::Incorrect
                    };
                    sounds.push(sound);
                },
            }
            i += 1;
        }
        proof {
            assert(batch.take(batch.len() as int) =~= batch);
        }
        world.event_queue.events = new_events;
        sounds
    }
}

} // verus!
