//! Core logic of a small peer-to-peer chat: input parsing, peer discovery
//! state, address parsing and the text the program shows.

pub mod addr;
pub mod app;
pub mod clock;
pub mod chat;
pub mod discovery;
pub mod text;
