//! A peer-to-peer discovery and chat library.
//!
//! Peers identify themselves with randomly generated 128-bit identifiers,
//! keep a persisted directory of the peers they have met, exchange a
//! ping/pong handshake to refresh that directory, and relay plain-text chat
//! lines through a bounded queue.
//!
//! The modules follow the data path: [`text`] holds the byte-level codec
//! helpers, [`uuid`] the identifiers, [`peer`] and [`info`] the directory,
//! [`store`] its persisted form, [`request`] the wire protocol, [`server`]
//! and [`client`] the two sides of the discovery handshake, [`chat`] the
//! relay hub, and [`listing`] the peer table.

pub mod text;
pub mod peer;
pub mod info;
pub mod request;
pub mod server;
pub mod client;
pub mod chat;
pub mod listing;
pub mod store;
pub mod uuid;
