//! A Sokoban puzzle engine: a player pushes coloured boxes over a grid until
//! every target spot carries a box.
//!
//! The engine keeps its state in a [`World`]: a table of entities, each a
//! row of optional components, and a few shared resources. A tick runs
//! three phases over it, in this order:
//!
//! 1. [`InputSystem`] turns the newest key press into a push: the player
//!    and the boxes in front of it move by one cell, unless something
//!    immovable or the rim of the grid is in the way.
//! 2. [`EventSystem`] takes the events that wait, returns the sounds they
//!    ask for, and queues what follows from them for the next tick.
//! 3. [`GameStateSystem`] looks whether every spot carries a box.
//!
//! [`Game::update`] runs one tick. [`RenderingSystem`] lists what is to be
//! drawn, and [`load_map`] builds a level from its text. Opening a window,
//! reading the keyboard, drawing and playing sounds are left to the
//! program that uses the engine.
//!
//! What each phase does is stated in its contract and proved; the
//! `lemma_` functions state what follows for whole pushes and passes.

pub mod audio;
pub mod components;
pub mod constants;
pub mod entities;
pub mod events;
pub mod game;
pub mod map;
pub mod push;
pub mod resources;
pub mod spatial_index;
pub mod systems;
pub mod text;
pub mod world;

pub use audio::Sound;
pub use components::{
    Box, BoxColour, BoxSpot, Immovable, Movable, Player, Position, Renderable, RenderableType,
    Wall,
};
pub use constants::{MAP_HEIGHT, MAP_WIDTH};
pub use entities::{
    create_box, create_box_spot, create_floor, create_player, create_wall, Kind,
};
pub use game::Game;
pub use events::{BoxPlacedOnSpot, EntityMoved, Event};
pub use map::{initialize_level, load_map, MapError, Tile, MAP};
pub use push::{find_chain, Direction};
pub use resources::{
    register_resources, EventQueue, Gameplay, GameplayState, InputQueue, Key, Time,
};
pub use spatial_index::{SpatialIndex, Tag};
pub use systems::rendering_system::Sprite;
pub use systems::{EventSystem, GameStateSystem, InputSystem, RenderingSystem};
pub use world::{Entity, World};
