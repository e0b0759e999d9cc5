//! The state that the phases share besides the entities.

use crate::events::Event;
use crate::world::World;
use vstd::prelude::*;
use vstd::string::*;

verus! {

/// A key press as the engine sees it: one of the four arrows, or any
/// other key.
#[derive(Clone, Copy, Debug, PartialEq, Eq, Structural)]
pub enum Key {
    Up,
    Down,
    Left,
    Right,
    Other,
}

/// Key presses that wait to be played. New presses go to the end; a tick
/// takes the last one.
#[derive(Debug)]
pub struct InputQueue {
    pub keys_pressed: Vec<Key>,
}

impl Default for InputQueue {
    fn default() -> (q: Self)
        ensures
            q.keys_pressed@ == Seq::<Key>::empty(),
    {
        InputQueue { keys_pressed: Vec::new() }
    }
}

/// Events that wait for the next pass of the event phase, oldest first.
#[derive(Debug)]
pub struct EventQueue {
    pub events: Vec<Event>,
}

impl Default for EventQueue {
    fn default() -> (q: Self)
        ensures
            q.events@ == Seq::<Event>::empty(),
    {
        EventQueue { events: Vec::new() }
    }
}

/// Running time since start, in nanoseconds. It drives the animations.
#[derive(Clone, Copy, Debug, PartialEq, Eq, Structural)]
pub struct Time {
    pub delta_nanos: u128,
}

impl Default for Time {
    fn default() -> (t: Self)
        ensures
            t.delta_nanos == 0,
    {
        Time { delta_nanos: 0 }
    }
}

impl Time {
    /// The time after `nanos` more nanoseconds, held at the largest
    /// value the counter can take.
    pub open spec fn advanced(self, nanos: u128) -> Time {
        Time {
            delta_nanos: if self.delta_nanos + nanos > u128::MAX {
                u128::MAX
            } else {
                (self.delta_nanos + nanos) as u128
            },
        }
    }

    /// Whole milliseconds since start.
    pub open spec fn millis(self) -> nat {
        (self.delta_nanos / 1_000_000) as nat
    }

    /// Lets `nanos` nanoseconds pass.
    pub fn advance(&mut self, nanos: u128)
        ensures
            *final(self) == old(self).advanced(nanos),
    {
        self.delta_nanos = self.delta_nanos.saturating_add(nanos);
    }

    /// Whole milliseconds since start.
    pub fn as_millis(&self) -> (ms: u128)
        ensures
            ms == self.millis(),
    {
        self.delta_nanos / 1_000_000
    }
}

/// Whether the puzzle is solved.
#[derive(Clone, Copy, Debug, PartialEq, Eq, Structural)]
pub enum GameplayState {
    Playing,
    Won,
}

impl Default for GameplayState {
    fn default() -> (s: Self)
        ensures
            s == GameplayState::Playing,
    {
        GameplayState::Playing
    }
}

impl GameplayState {
    /// The text shown on screen for this state.
    pub open spec fn label(self) -> Seq<char> {
        match self {
            GameplayState::Playing => "Playing"@,
            GameplayState::Won => "Won!"@,
        }
    }

    /// The state's label as a string.
    pub fn to_string(&self) -> (s: String)
        ensures
            s@ == self.label(),
    {
        match self {
            GameplayState::Playing => String::from_str("Playing"),
            GameplayState::Won => String::from_str("Won!"),
        }
    }
}

/// The state of play, and how many pushes the player has made.
#[derive(Clone, Copy, Debug, PartialEq, Eq, Structural)]
pub struct Gameplay {
    pub state: GameplayState,
    pub moves_count: u32,
}

impl Default for Gameplay {
    fn default() -> (g: Self)
        ensures
            g == (Gameplay { state: GameplayState::Playing, moves_count: 0 }),
    {
        Gameplay { state: GameplayState::Playing, moves_count: 0 }
    }
}

/// Puts every resource of the world back to its initial value: empty
/// queues, no moves, state `Playing`, time zero. The entities stay.
pub fn register_resources(world: &mut World)
    ensures
        final(world).entities == old(world).entities,
        final(world).input_queue.keys_pressed@ == Seq::<Key>::empty(),
        final(world).event_queue.events@ == Seq::<Event>::empty(),
        final(world).gameplay == (Gameplay { state: GameplayState::Playing, moves_count: 0 }),
        final(world).time == (Time { delta_nanos: 0 }),
{
    world.input_queue = InputQueue::default();
    world.event_queue = EventQueue::default();
    world.gameplay = Gameplay::default();
    world.time = Time::default();
}

} // verus!
