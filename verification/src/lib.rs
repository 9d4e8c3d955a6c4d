//! Deterministic simulation core for a rollback-netcode box game.
//!
//! The crate advances a shared game state frame by frame, encodes it into
//! snapshots that can be stored and restored, and computes the checksums by
//! which peers detect that their simulations have drifted apart.
//!
//! Every scalar of the state is kept as the bit pattern of a
//! single-precision number, so that two states are equal exactly when their
//! snapshots are.  The arithmetic on those numbers is left to the caller, as
//! the five functions of a `Motion`; the crate fixes the order in which
//! they act, and everything around them.

pub mod checksum;
pub mod game;
pub mod input;
pub mod motion;
pub mod state;
pub mod wire;

pub use crate::checksum::fletcher16;
pub use crate::game::{BoxGame, Config, Error, Failure, Reply, Request, Snapshot};
pub use crate::input::{Controls, InputFrame, Thrust, Turn};
pub use crate::motion::Motion;
pub use crate::state::{BoxGameState, PlayerState};
