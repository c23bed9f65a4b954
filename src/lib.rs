//! An in-memory registry of players: unique names, positions, and a
//! credential issued once per player that gates every position change.

pub mod laws;
pub mod model;
pub mod registry;
mod secret;

pub use model::{Player, Position, Registration, RegistryError};
pub use registry::PlayerRegistry;
