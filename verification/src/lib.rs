//! Dependency-aware scheduling: a ledger of which resource types each test
//! artifact needs and each resource state supplies, and the two selection
//! policies that keep it up to date.

pub mod draw;
pub mod ledger;
pub mod sampling;
pub mod scheduler;
pub mod sets;
pub mod tables;
pub mod votes;
