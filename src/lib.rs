//! Typed key-value storage for runtime modules over a flat byte-keyed store:
//! hashers and key composition, single-value and map-shaped items, counted
//! maps, absence policies, the per-module storage version ledger, and the
//! admission check that lets only the sudo account into the transaction pool.

pub mod bytes;
pub mod hashing;
pub mod codec;
pub mod store;
pub mod key;
pub mod query;
pub mod info;
pub mod value;
pub mod map;
pub mod double_map;
pub mod nmap;
pub mod counted;
pub mod counted_nmap;
pub mod version;
pub mod sudo;
