//! Server browser core for Steam Datagram Relay points of presence:
//! keyword filtering, clustering of relays into servers, a blocklist of
//! relay addresses, firewall command building, ping evaluation and the
//! state machine behind the terminal interface.

pub mod text;
pub mod models;
pub mod order;
pub mod fetch;
pub mod db;
pub mod address;
pub mod firewall;
pub mod pinger;
pub mod app_state;
pub mod display;
pub mod cache;
