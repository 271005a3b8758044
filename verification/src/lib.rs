//! Raft coordination logic for Holochain conductors: timing configuration,
//! peer presence tracking, fork detection, leader-following client calls,
//! request handling decisions and the app-interface data model.

pub mod config;
pub mod node;
pub mod presence;
pub mod peer_tracker;
pub mod forker;
pub mod message;
pub mod client;
pub mod interface;
pub mod registry;
pub mod error;
