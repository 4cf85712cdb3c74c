//! Installation planning for game addons: resolving where an addon is
//! downloaded from, locating its payload inside an unpacked archive, the
//! enable/disable list handed to the mod manager, and guarded directory
//! merges that roll back when a copy fails.

pub mod text;
pub mod addon;
pub mod resolve;
pub mod registry;
pub mod transaction;
pub mod cache;
pub mod config;
pub mod responses;
pub mod actions;
