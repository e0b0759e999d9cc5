//! The phases of a tick.

pub mod event_system;
pub mod game_state_system;
pub mod input_system;
pub mod rendering_system;

pub use self::event_system::EventSystem;
pub use self::game_state_system::GameStateSystem;
pub use self::input_system::InputSystem;
pub use self::rendering_system::RenderingSystem;
