//! Verified core of a tile-mining multiplayer world server: tile and world
//! identifiers, the frame header of the wire protocol, the per-instance tile
//! layer, the spatial grid of players, the roster and mining state of a world
//! instance, and the gateway that routes players between instances.

pub mod framing;
pub mod gateway;
pub mod grid;
pub mod instance;
pub mod player;
pub mod session;
pub mod spatial;
pub mod tile;
pub mod transfer;
pub mod tiles;
pub mod world;
pub mod zone;
