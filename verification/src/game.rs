//! A whole game and its tick.

use crate::audio::Sound;
use crate::events::Event;
use crate::map::{
    built, initialize_level, is_first_fault, is_sound, items_of, plan_of, MapError, MAP,
};
use crate::resources::{Gameplay, GameplayState, Key, Time};
use crate::systems::event_system::{follow_ups, sounds_of};
use crate::systems::game_state_system::state_of;
use crate::systems::input_system::outcome_of;
use crate::systems::{EventSystem, GameStateSystem, InputSystem};
use crate::world::{has_player, Entity, World};
use vstd::prelude::*;

verus! {

/// A running game: the world, and the order in which its phases run.
#[derive(Debug)]
pub struct Game {
    pub world: World,
}

impl Game {
    /// A game on the built-in level, ready for its first tick.
    pub fn new() -> (result: Result<Game, MapError>)
        ensures
            result is Ok <==> is_sound(items_of(MAP@), false),
            result matches Ok(game) ==> {
                &&& game.world.wf()
                &&& built(Seq::<Entity>::empty(), game.world.entities@, plan_of(MAP@))
                &&& game.world.input_queue.keys_pressed@ == Seq::<Key>::empty()
                &&& game.world.event_queue.events@ == Seq::<Event>::empty()
                &&& game.world.gameplay == (Gameplay {
                    state: GameplayState::Playing,
                    moves_count: 0,
                })
                &&& game.world.time == (Time { delta_nanos: 0 })
            },
            result matches Err(error) ==> is_first_fault(items_of(MAP@), false, error),
    {
        let mut world = World::new();
        match initialize_level(&mut world) {
            Ok(()) => Ok(Game { world }),
            Err(error) => Err(error),
        }
    }

    /// Takes a key press into the queue, behind those that wait.
    pub fn key_down_event(&mut self, key: Key)
        ensures
            final(self).world.input_queue.keys_pressed@ == old(
                self,
            ).world.input_queue.keys_pressed@.push(key),
            final(self).world.entities@ == old(self).world.entities@,
            final(self).world.event_queue.events@ == old(self).world.event_queue.events@,
            final(self).world.gameplay == old(self).world.gameplay,
            final(self).world.time == old(self).world.time,
    {
        self.world.input_queue.keys_pressed.push(key);
    }

    /// Runs one tick: push resolution, then the event phase, then the
    /// win evaluation, and lets `elapsed_nanos` pass on the clock. It
    /// returns the sounds that the event phase asks for.
    ///
    /// The event phase sees the events that waited before the tick and,
    /// behind them, those of this tick's push. What follows from them
    /// waits for the next tick.
    pub fn update(&mut self, elapsed_nanos: u128) -> (sounds: Vec<Sound>)
        requires
            old(self).world.wf(),
            old(self).world.gameplay.moves_count < u32::MAX,
        ensures
            final(self).world.wf(),
            final(self).world.entities@ == outcome_of(
                old(self).world.entities@,
                old(self).world.input_queue.keys_pressed@,
            ).entities(old(self).world.entities@),
            final(self).world.input_queue.keys_pressed@ == outcome_of(
                old(self).world.entities@,
                old(self).world.input_queue.keys_pressed@,
            ).keys(old(self).world.input_queue.keys_pressed@),
            sounds@ == sounds_of(
                old(self).world.event_queue.events@ + outcome_of(
                    old(self).world.entities@,
                    old(self).world.input_queue.keys_pressed@,
                ).events(),
            ),
            final(self).world.event_queue.events@ == follow_ups(
                final(self).world.entities@,
                old(self).world.event_queue.events@ + outcome_of(
                    old(self).world.entities@,
                    old(self).world.input_queue.keys_pressed@,
                ).events(),
            ),
            final(self).world.gameplay.moves_count == outcome_of(
                old(self).world.entities@,
                old(self).world.input_queue.keys_pressed@,
            ).moves(old(self).world.gameplay.moves_count),
            final(self).world.gameplay.state == state_of(final(self).world.entities@),
            final(self).world.time == old(self).world.time.advanced(elapsed_nanos),
    {
        let mut input = InputSystem {  };
        input.run(&mut self.world);
        let mut events = EventSystem {  };
        let sounds = events.run(&mut self.world);
        let mut state = GameStateSystem {  };
        state.run(&mut self.world);
        self.world.time.advance(elapsed_nanos);
        sounds
    }
}

} // verus!
