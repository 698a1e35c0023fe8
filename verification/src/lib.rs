//! The mixnet contract's bonding, delegation and rewarding rules, verified.
pub mod store;
pub mod types;
pub mod rewards;
pub mod text;
pub mod validation;
pub mod model;
pub mod laws;
pub mod transactions;
