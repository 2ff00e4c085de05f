//! Coordinator for a real-time "bingo" game mode: rooms, teams, cell claims,
//! subscription channels, map queues and the connection protocol.

pub mod broadcast;
pub mod chance;
pub mod channel;
pub mod color;
pub mod config;
pub mod events;
pub mod game;
pub mod gamemap;
pub mod messageable;
pub mod protocol;
pub mod reconnect;
pub mod requests;
pub mod room;
pub mod server;
pub mod session;
pub mod text;
pub mod version;
