//! Flattening of Rocket League replays.
//!
//! A decoded replay speaks of short-lived actor ids that are bound to object
//! ids when an actor is spawned. This crate turns such a replay into one
//! record per network frame that maps every tracked object to its last known
//! position and rotation.

pub mod dates;
pub mod flattener;
pub mod laws;
pub mod model;
pub mod pairing;
pub mod replay;
pub mod replay_header;
pub mod rocket_league;
pub mod spatial;
pub mod text;
pub mod tracking;

pub use crate::flattener::{BuildError, FlatReplay, Frame};
pub use crate::replay_header::ReplayHeader;
pub use crate::rocket_league::{Platform, RLObject};
