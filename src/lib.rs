//! A club-membership registry: a directory of registered clubs, gated by a
//! quorum, and a store mapping each club to the ordered list of its members.
pub mod bytes;
pub mod directory;
pub mod laws;
pub mod membership;
pub mod pallet;

pub use directory::{GenesisConfig, RegisteredClubs};
pub use membership::{AccountId, ClubMembers};
pub use pallet::{Config, Error, Event, Origin, Pallet};
