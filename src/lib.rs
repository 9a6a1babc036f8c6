//! Claims labelled tickets from ticket trackers, lays each out as a small
//! printable card and decides when the claims must be given back.
//!
//! Everything that talks to the network, the file system or a printer lives
//! outside this library: it hands the library what it fetched and performs the
//! actions that the library decides on.

pub mod config;
pub mod cycle;
pub mod jira;
pub mod layout;
pub mod print;
pub mod qr;
pub mod services;
pub mod text;
pub mod trello;
