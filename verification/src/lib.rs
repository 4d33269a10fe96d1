//! Authoritative core of a small turn-based tactical combat server.
//!
//! The crate provides the typed id scheme and append-only `IdMap`s, the
//! immutable `GameDefinition` catalog assembled from content data, the lobby
//! phase (`CharacterMapBuilder`), the running `GameState` with its turn
//! scheduling, and the `SessionRegistry` that owns every session and drives
//! the lobby-to-running transition.

pub mod error;
pub mod game;
pub mod ids;
pub mod loader;
pub mod lobby;
pub mod registry;
pub mod state;
