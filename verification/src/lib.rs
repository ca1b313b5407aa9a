//! A pay-to-play arcade game ledger: a fixed-capacity binary codec for the
//! persisted records, a time-gated play-session lifecycle, a 20-slot
//! leaderboard, a game registry, and the instruction-driven state machine
//! that ties them together.
use vstd::prelude::*;

pub mod codec;
pub mod dispatch;
pub mod instructions;
pub mod leaderboard;
pub mod registry;
pub mod sessions;
pub mod types;
pub mod utf8;

verus! {

/// Number of slots the leaderboard always carries.
pub const LEADERBOARD_SLOTS: usize = 20;

/// Byte length of an identity (a public key) and of a session token.
pub const ID_LEN: usize = 32;

/// Fixed capacity of the encoded game-state record.
pub const STATE_CAPACITY: usize = 3072;

/// Fixed capacity of the encoded game-registry record.
pub const REGISTRY_CAPACITY: usize = 4096;

/// Default anti-cheat floor on play time, in seconds.
pub const DEFAULT_MIN_PLAY_SECONDS: u32 = 60;

} // verus!
