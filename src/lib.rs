//! Core of a physics puzzle toy: level markers and their text codec, the
//! level editor's actions, the materializer that equips markers for play,
//! the aim-and-shoot controller and the progress tracker.
//!
//! Positions and radii are whole world units; velocities are thousandths
//! of a world unit per second.

pub mod aim;
pub mod codec;
pub mod editor;
pub mod level;
pub mod progress;
pub mod scene;
pub mod states;
